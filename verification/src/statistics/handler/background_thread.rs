//! The requests that the background thread computing statistics serves, and the order in which
//! it serves them.
//!
//! The thread itself (its channel and its loop) runs outside the library: it hands the messages
//! it received to [`process_messages`] and serves the request that `pop` takes from the buffer.

use std::cmp::Ordering;

use vstd::prelude::*;

use crate::window::Window;

verus! {

/// The different kinds of requests that can be made to the backend.
#[derive(Debug, Clone, Copy, PartialEq, Eq, Structural)]
pub enum RequestKind {
    /// Request bigram statistics for a given window.
    Bigrams,
    /// Request flat statistics for a given window.
    Flat,
    /// Request an entropy estimate for a given window.
    EntropyEstimate,
}

/// The position of the kind in the order of kinds.
pub open spec fn kind_rank(kind: RequestKind) -> int {
    match kind {
        RequestKind::Bigrams => 0,
        RequestKind::Flat => 1,
        RequestKind::EntropyEstimate => 2,
    }
}

/// A request to the backend.
#[derive(Debug, Clone, Copy)]
pub struct Request {
    /// The kind of request that is made.
    pub kind: RequestKind,
    /// The window the request applies to.
    pub window: Window,
}

/// The messages used to communicate to the background thread.
pub enum Message {
    /// Computes the given request.
    Compute(Request),
    /// Clears all pending requests.
    ClearRequests,
}

/// Request `a` comes before request `b`: by kind, then later windows first, then smaller windows
/// first.
pub open spec fn request_before(a: Request, b: Request) -> bool {
    ||| kind_rank(a.kind) < kind_rank(b.kind)
    ||| kind_rank(a.kind) == kind_rank(b.kind) && a.window@.start > b.window@.start
    ||| kind_rank(a.kind) == kind_rank(b.kind) && a.window@.start == b.window@.start
        && a.window@.size() < b.window@.size()
}

/// The position of the kind in the order of kinds.
fn kind_rank_of(kind: RequestKind) -> (r: u8)
    ensures
        r == kind_rank(kind),
{
    match kind {
        RequestKind::Bigrams => 0,
        RequestKind::Flat => 1,
        RequestKind::EntropyEstimate => 2,
    }
}

/// Whether request `a` comes before request `b`.
fn is_before(a: &Request, b: &Request) -> (r: bool)
    ensures
        r == request_before(*a, *b),
{
    let ka = kind_rank_of(a.kind);
    let kb = kind_rank_of(b.kind);
    let sa = a.window.start();
    let sb = b.window.start();
    let za = a.window.size();
    let zb = b.window.size();
    ka < kb || (ka == kb && sa > sb) || (ka == kb && sa == sb && za < zb)
}

impl Request {
    /// Compares two requests: by kind, then later windows first, then smaller windows first.
    pub fn cmp(&self, other: &Request) -> (r: Ordering)
        ensures
            r == Ordering::Less <==> request_before(*self, *other),
            r == Ordering::Greater <==> request_before(*other, *self),
    {
        if is_before(self, other) {
            Ordering::Less
        } else if is_before(other, self) {
            Ordering::Greater
        } else {
            Ordering::Equal
        }
    }

    /// Compares two requests; they are always comparable.
    pub fn partial_cmp(&self, other: &Request) -> (r: Option<Ordering>)
        ensures
            r is Some,
            r == Some(Ordering::Less) <==> request_before(*self, *other),
            r == Some(Ordering::Greater) <==> request_before(*other, *self),
    {
        Some(self.cmp(other))
    }
}

/// The requests are sorted by [`request_before`].
pub open spec fn sorted_requests(s: Seq<Request>) -> bool {
    forall|i: int, j: int| 0 <= i < j < s.len() ==> !request_before(s[j], s[i])
}

/// Inserting a request before the first one that it comes before keeps the requests sorted.
proof fn lemma_insert_sorted(before: Seq<Request>, p: int, c: Request)
    requires
        sorted_requests(before),
        0 <= p <= before.len(),
        forall|q: int| 0 <= q < p ==> !request_before(c, #[trigger] before[q]),
        p < before.len() ==> request_before(c, before[p]),
    ensures
        sorted_requests(before.insert(p, c)),
{
    before.insert_ensures(p, c);
    let after = before.insert(p, c);
    assert forall|a: int, b: int| 0 <= a < b < after.len() implies !request_before(after[b], after[a]) by {
        if b < p {
        } else if a < p && b == p {
        } else if a < p {
            assert(after[b] == before[b - 1]);
        } else if a == p {
            assert(after[b] == before[b - 1]);
            assert(!request_before(before[b - 1], before[p]));
        } else {
            assert(after[a] == before[a - 1]);
            assert(after[b] == before[b - 1]);
        }
    }
}

/// Inserting the next request keeps the requests those of the prefix taken so far.
proof fn lemma_insert_contains(before: Seq<Request>, requests: Seq<Request>, i: int, p: int, c: Request)
    requires
        0 <= i < requests.len(),
        c == requests[i],
        0 <= p <= before.len(),
        forall|x: Request| before.contains(x) <==> requests.take(i).contains(x),
    ensures
        forall|x: Request| before.insert(p, c).contains(x) <==> requests.take(i + 1).contains(x),
{
    before.insert_ensures(p, c);
    let out = before.insert(p, c);
    assert forall|x: Request| out.contains(x) <==> requests.take(i + 1).contains(x) by {
        let longer = requests.take(i + 1);
        let shorter = requests.take(i);
        assert(longer =~= shorter.push(c));
        if longer.contains(x) && x != c {
            let k = choose|k: int| 0 <= k < longer.len() && #[trigger] longer[k] == x;
            assert(shorter[k] == x);
            assert(before.contains(x));
        }
        if shorter.contains(x) {
            let k = choose|k: int| 0 <= k < shorter.len() && #[trigger] shorter[k] == x;
            assert(longer[k] == x);
        }
        if x == c {
            assert(longer[i] == x);
            assert(out[p] == x);
        }
        if out.contains(x) {
            let k = choose|k: int| 0 <= k < out.len() && out[k] == x;
            if k < p {
                assert(before.contains(x));
            } else if k > p {
                assert(before[k - 1] == x);
                assert(before.contains(x));
            }
        }
        if before.contains(x) {
            let k = choose|k: int| 0 <= k < before.len() && before[k] == x;
            if k < p {
                assert(out[k] == x);
            } else {
                assert(out[k + 1] == x);
            }
        }
    }
}

/// Sorts the requests in the order of [`request_before`], so that the last one is served first.
pub fn sort_requests(requests: &Vec<Request>) -> (r: Vec<Request>)
    ensures
        r@.len() == requests@.len(),
        forall|i: int, j: int| 0 <= i < j < r@.len() ==> !request_before(r@[j], r@[i]),
        forall|x: Request| r@.contains(x) <==> requests@.contains(x),
{
    let mut out: Vec<Request> = Vec::new();
    let mut i: usize = 0;
    while i < requests.len()
        invariant
            i <= requests@.len(),
            out@.len() == i,
            sorted_requests(out@),
            forall|x: Request| out@.contains(x) <==> requests@.take(i as int).contains(x),
        decreases requests@.len() - i,
    {
        let c = requests[i];
        let mut p: usize = 0;
        while p < out.len() && !is_before(&c, &out[p])
            invariant
                p <= out@.len(),
                forall|q: int| 0 <= q < p ==> !request_before(c, #[trigger] out@[q]),
            decreases out@.len() - p,
        {
            p = p + 1;
        }
        let ghost before = out@;
        out.insert(p, c);
        proof {
            lemma_insert_sorted(before, p as int, c);
            lemma_insert_contains(before, requests@, i as int, p as int, c);
        }
        i = i + 1;
    }
    proof {
        assert(requests@.take(requests@.len() as int) =~= requests@);
    }
    out
}

/// The requests that remain after the given messages: each message adds its request, or clears
/// the requests before it.
pub open spec fn pending_after(buffer: Seq<Request>, messages: Seq<Message>) -> Seq<Request>
    decreases messages.len(),
{
    if messages.len() == 0 {
        buffer
    } else {
        let before = pending_after(buffer, messages.drop_last());
        match messages.last() {
            Message::Compute(request) => before.push(request),
            Message::ClearRequests => Seq::empty(),
        }
    }
}

/// Processes the messages that the background thread received, in order, and sorts the pending
/// requests, so that the last one is served next.
pub fn process_messages(buffer: &mut Vec<Request>, messages: Vec<Message>)
    ensures
        final(buffer)@.len() == pending_after(old(buffer)@, messages@).len(),
        forall|i: int, j: int|
            0 <= i < j < final(buffer)@.len() ==> !request_before(final(buffer)@[j], final(buffer)@[i]),
        forall|x: Request|
            final(buffer)@.contains(x) <==> pending_after(old(buffer)@, messages@).contains(x),
{
    let mut pending: Vec<Request> = Vec::new();
    let mut k: usize = 0;
    while k < buffer.len()
        invariant
            k <= buffer@.len(),
            buffer@ == old(buffer)@,
            pending@ == buffer@.take(k as int),
        decreases buffer@.len() - k,
    {
        pending.push(buffer[k]);
        k = k + 1;
        proof {
            assert(pending@ =~= buffer@.take(k as int));
        }
    }
    proof {
        assert(pending@ =~= old(buffer)@);
    }
    let mut i: usize = 0;
    while i < messages.len()
        invariant
            i <= messages@.len(),
            pending@ == pending_after(old(buffer)@, messages@.take(i as int)),
        decreases messages@.len() - i,
    {
        proof {
            assert(messages@.take(i + 1).drop_last() =~= messages@.take(i as int));
        }
        match &messages[i] {
            Message::Compute(request) => {
                pending.push(*request);
            },
            Message::ClearRequests => {
                pending = Vec::new();
            },
        }
        i = i + 1;
    }
    proof {
        assert(messages@.take(messages@.len() as int) =~= messages@);
    }
    *buffer = sort_requests(&pending);
}

} // verus!
