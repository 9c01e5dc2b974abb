use hexbait::parsing::eval::error::ParseErr;
use hexbait::parsing::eval::value::{Value, ValueKind};
use hexbait::parsing::eval::{copy_value, read_bytes, values_equal, Offset, ParseContext};
use hexbait::parsing::language::ast::{BinOp, Expr, ExprKind, Node, NodeKind, Symbol, UnOp};
use hexbait::parsing::language::Int;
use hexbait::parsing::{
    tmp_bitlocker_header, tmp_bitlocker_information, tmp_mft_entry, tmp_mft_file_name,
    tmp_mft_index_entry, tmp_mft_index_node_header, tmp_mft_index_root,
    tmp_mft_standard_information, tmp_ntfs_header, tmp_pe_file, tmp_vhdx_metadata_table,
    tmp_vhdx_region_table, tmp_vmdk_header,
};

fn as_u64(value: &Value) -> Option<u64> {
    match &value.kind {
        ValueKind::Integer(i) => i.to_u64(),
        _ => None,
    }
}

fn header() -> Node {
    Node::structure(vec![
        (Symbol::new("magic"), Node::fixed_bytes(Expr::constant_bytes(vec![0x4d, 0x5a]))),
        (Symbol::new("len"), Node::integer(16, false)),
        (Symbol::new("data"), Node::fixed_length(Expr::variable(Symbol::new("len")))),
    ])
}

#[test]
fn int_arithmetic_is_exact() {
    let a = Int::from_i64(-5);
    let b = Int::from_u64(7);
    assert_eq!(a.add(&b).to_u64(), Some(2));
    assert_eq!(b.sub(&a).to_u64(), Some(12));
    assert_eq!(a.to_u64(), None);
    let big = Int::from_u64(u64::MAX).add(&Int::from_u64(1));
    assert_eq!(big.to_u64(), None);
    assert!(big.equals(&Int::from_i128(1i128 << 64)));
    assert!(big.sub(&Int::from_u64(1)).equals(&Int::from_u64(u64::MAX)));
    assert!(Int::from_i128(-1).equals(&Int::from_i64(-1)));
    assert!(!Int::from_i64(-1).equals(&Int::from_i64(1)));
    assert!(Int::from_i64(0).equals(&Int::from_u64(0)));
}

#[test]
fn parses_a_structure() {
    let mut data = vec![0x4d, 0x5a, 3, 0, 1, 2, 3, 9];
    let mut ctx = ParseContext::with_offset(Offset::new(0));
    let value = ctx.parse(&header(), &mut data).ok().unwrap();
    assert_eq!(ctx.offset(), 7);
    match &value.kind {
        ValueKind::Struct(fields) => {
            assert_eq!(fields.len(), 3);
            assert!(fields[0].0.equals(&Symbol::new("magic")));
            match &fields[0].1.kind {
                ValueKind::Bytes(b) => assert_eq!(b, &vec![0x4d, 0x5a]),
                _ => panic!("magic is not bytes"),
            }
            assert_eq!(as_u64(&fields[1].1), Some(3));
            match &fields[2].1.kind {
                ValueKind::Bytes(b) => assert_eq!(b, &vec![1, 2, 3]),
                _ => panic!("data is not bytes"),
            }
        }
        _ => panic!("not a structure"),
    }
}

#[test]
fn short_input_is_reported() {
    let mut data = vec![0x4d, 0x5a, 9, 0, 1];
    let mut ctx = ParseContext::with_offset(Offset::new(0));
    assert!(matches!(ctx.parse(&header(), &mut data), Err(ParseErr::InputTooShort)));
}

#[test]
fn integers_are_little_endian_and_sign_extended() {
    let mut data = vec![0xff, 0xfe, 0x01, 0x80];
    let mut ctx = ParseContext::with_offset(Offset::new(0));
    let signed = ctx.parse(&Node::integer(16, true), &mut data).ok().unwrap();
    match &signed.kind {
        ValueKind::Integer(i) => assert!(i.equals(&Int::from_i64(-257))),
        _ => panic!("not an integer"),
    }
    let unsigned = ctx.parse(&Node::integer(16, false), &mut data).ok().unwrap();
    assert_eq!(as_u64(&unsigned), Some(0x8001));
    let mut data = vec![0xff; 8];
    let mut ctx = ParseContext::with_offset(Offset::new(0));
    let wide = ctx.parse(&Node::integer(64, false), &mut data).ok().unwrap();
    assert_eq!(as_u64(&wide), Some(u64::MAX));
}

#[test]
fn offsets_are_relative_to_the_start() {
    let mut data = vec![0, 0, 0, 0, 10, 20, 30];
    let mut ctx = ParseContext::with_offset(Offset::new(2));
    let node = Node::integer(8, false).at(Expr::constant_int(3));
    let value = ctx.parse(&node, &mut data).ok().unwrap();
    assert_eq!(as_u64(&value), Some(20));
    assert_eq!(ctx.offset(), 6);
}

#[test]
fn repeats_count_times_and_while_a_condition_holds() {
    let mut data = vec![1, 2, 3, 0, 5];
    let mut ctx = ParseContext::with_offset(Offset::new(0));
    let repeated = ctx
        .parse(&Node::repeat_count(Node::integer(8, false), Expr::constant_int(2)), &mut data)
        .ok()
        .unwrap();
    match &repeated.kind {
        ValueKind::Array(values) => assert_eq!(values.len(), 2),
        _ => panic!("not an array"),
    }
    let until_third = Node::repeat_while(
        Node::integer(8, false),
        Expr::un_op(UnOp::Not, Expr::bin_op(Expr::offset(), BinOp::Eq, Expr::constant_int(4))),
    );
    let rest = ctx.parse(&until_third, &mut data).ok().unwrap();
    match &rest.kind {
        ValueKind::Array(values) => {
            assert_eq!(values.len(), 2);
            assert_eq!(as_u64(&values[0]), Some(3));
            assert_eq!(as_u64(&values[1]), Some(0));
        }
        _ => panic!("not an array"),
    }
    assert_eq!(ctx.offset(), 4);
}

#[test]
fn expressions_evaluate() {
    let mut data = vec![1, 2, 3];
    let ctx = ParseContext::with_offset(Offset::new(5));
    let sum = Expr::bin_op(Expr::offset(), BinOp::Add, Expr::constant_int(-7));
    let value = ctx.eval_expr(&sum, &mut data).ok().unwrap();
    match &value.kind {
        ValueKind::Integer(i) => assert!(i.equals(&Int::from_i64(-2))),
        _ => panic!("not an integer"),
    }
    let equal = Expr::bin_op(Expr::constant_bytes(vec![1]), BinOp::Eq, Expr::constant_bytes(vec![1]));
    match ctx.eval_expr(&equal, &mut data).ok().unwrap().kind {
        ValueKind::Boolean(b) => assert!(b),
        _ => panic!("not a boolean"),
    }
    let peek = Expr::parse_at(Node::integer(8, false).at(Expr::constant_int(1)));
    let value = ctx.eval_expr(&peek, &mut data);
    assert!(matches!(value, Err(ParseErr::InputTooShort)));
    let ctx = ParseContext::with_offset(Offset::new(0));
    let value = ctx.eval_expr(&peek, &mut data).ok().unwrap();
    assert_eq!(as_u64(&value), Some(2));
}

#[test]
fn child_contexts_start_without_values() {
    let mut data = vec![0x4d, 0x5a, 1, 0, 7];
    let mut ctx = ParseContext::with_offset(Offset::new(0));
    let value = ctx.parse(&header(), &mut data).ok().unwrap();
    let copy = copy_value(&value);
    assert!(values_equal(&value, &copy));
    let child = ctx.child();
    assert_eq!(child.offset(), ctx.offset());
}

#[test]
fn read_bytes_moves_the_offset() {
    let mut data = vec![1, 2, 3, 4];
    let mut offset = Offset::new(1);
    let (window, bytes) = read_bytes(&mut data, &mut offset, 2).ok().unwrap();
    assert_eq!(bytes, vec![2, 3]);
    assert_eq!(window.start(), 1);
    assert_eq!(window.end(), 3);
    assert_eq!(offset.next_whole_byte(), 3);
    assert!(matches!(read_bytes(&mut data, &mut offset, 5), Err(ParseErr::InputTooShort)));
    assert_eq!(offset.next_whole_byte(), 3);
}

#[test]
fn parse_errors_describe_themselves() {
    let err: ParseErr<()> = ParseErr::InputTooShort;
    assert_eq!(err.describe(), Some("input too short"));
    let err: ParseErr<()> = ParseErr::from(());
    assert!(matches!(err, ParseErr::SourceErr(())));
    assert_eq!(err.describe(), None);
}

#[test]
fn format_descriptions_are_structures() {
    let descriptions = [
        tmp_pe_file(),
        tmp_mft_entry(),
        tmp_mft_standard_information(),
        tmp_mft_file_name(),
        tmp_mft_index_root(),
        tmp_mft_index_node_header(),
        tmp_mft_index_entry(),
        tmp_ntfs_header(),
        tmp_bitlocker_header(),
        tmp_bitlocker_information(),
        tmp_vhdx_region_table(),
        tmp_vhdx_metadata_table(),
        tmp_vmdk_header(),
    ];
    for description in &descriptions {
        assert!(matches!(description.kind, NodeKind::Struct { .. }));
    }
    match &tmp_pe_file().kind {
        NodeKind::Struct { nodes } => {
            assert!(nodes[0].0.equals(&Symbol::new("mz_header")));
            match &nodes[0].1.kind {
                NodeKind::Struct { nodes } => match &nodes[0].1.kind {
                    NodeKind::FixedBytes { expected } => match &expected.kind {
                        ExprKind::ConstantBytes { value } => assert_eq!(value, &b"MZ".to_vec()),
                        _ => panic!("magic is not constant"),
                    },
                    _ => panic!("magic is not fixed"),
                },
                _ => panic!("header is not a structure"),
            }
        }
        _ => panic!("not a structure"),
    }
}

#[test]
fn pe_header_parses_up_to_unsupported_parts() {
    let mut data = b"MZ".to_vec();
    data.extend_from_slice(&[0; 58]);
    data.extend_from_slice(&64u32.to_le_bytes());
    data.extend_from_slice(b"PE\0\0");
    let mz = match tmp_pe_file().kind {
        NodeKind::Struct { mut nodes } => nodes.remove(0).1,
        _ => panic!("not a structure"),
    };
    let mut ctx = ParseContext::with_offset(Offset::new(0));
    let value = ctx.parse(&mz, &mut data).ok().unwrap();
    match &value.kind {
        ValueKind::Struct(fields) => assert_eq!(as_u64(&fields[1].1), Some(64)),
        _ => panic!("not a structure"),
    }
}

#[test]
fn integers_expose_sign_and_magnitude() {
    let negative = Int::from_i64(-5);
    assert!(negative.is_negative());
    assert_eq!(negative.magnitude_limbs(), vec![5]);
    let zero = Int::from_u64(0);
    assert!(!zero.is_negative());
    assert!(zero.magnitude_limbs().is_empty());
    let large = Int::from_i128(1 << 70);
    assert_eq!(large.magnitude_limbs(), vec![0, 64]);
}

#[test]
fn symbols_give_back_their_name() {
    assert_eq!(Symbol::new("signature").to_string(), "signature");
}

#[test]
fn built_in_headers_parse_into_structures() {
    for node in [tmp_ntfs_header(), tmp_vmdk_header(), tmp_mft_index_node_header()] {
        let mut data = vec![0u8; 4096];
        let mut ctx = ParseContext::with_offset(Offset::new(0));
        let value = ctx.parse(&node, &mut data).ok().unwrap();
        assert!(matches!(value.kind, ValueKind::Struct(_)));
        let mut short = vec![0u8; 2];
        let mut ctx = ParseContext::with_offset(Offset::new(0));
        assert!(matches!(ctx.parse(&node, &mut short), Err(ParseErr::InputTooShort)));
    }
}

#[test]
fn fixed_descriptions_are_recognised() {
    for node in [
        tmp_ntfs_header(),
        tmp_vmdk_header(),
        tmp_mft_index_node_header(),
        tmp_mft_standard_information(),
        tmp_bitlocker_header(),
        tmp_vhdx_region_table(),
        tmp_vhdx_metadata_table(),
    ] {
        assert!(node.reads_fixed_amount());
    }
    for node in [tmp_pe_file(), tmp_mft_entry(), tmp_bitlocker_information(), header()] {
        assert!(!node.reads_fixed_amount());
    }
    // a count must come from an earlier unsigned field of at most 32 bits
    let counted = |width: u32, signed: bool| {
        Node::structure(vec![
            (Symbol::new("n"), Node::integer(width, signed)),
            (
                Symbol::new("items"),
                Node::repeat_count(Node::integer(8, false), Expr::variable(Symbol::new("n"))),
            ),
        ])
    };
    assert!(counted(32, false).reads_fixed_amount());
    assert!(!counted(64, false).reads_fixed_amount());
    assert!(!counted(16, true).reads_fixed_amount());
    assert!(Node::repeat_count(Node::integer(8, false), Expr::constant_int(3)).reads_fixed_amount());
    assert!(!Node::repeat_count(Node::integer(8, false), Expr::constant_int(0x1_0001)).reads_fixed_amount());
    assert!(Node::integer(32, false).at(Expr::constant_int(16)).reads_fixed_amount());
    assert!(!Node::integer(32, false).at(Expr::offset()).reads_fixed_amount());
}

#[test]
fn checked_parsing_parses_fixed_descriptions() {
    let mut data = vec![0u8; 4096];
    data[0] = 0x34;
    data[1] = 0x12;
    let mut ctx = ParseContext::with_offset(Offset::new(0));
    let value = ctx.parse_checked(&Node::integer(16, false), &mut data).unwrap().ok().unwrap();
    assert_eq!(as_u64(&value), Some(0x1234));
    assert_eq!(ctx.offset(), 2);

    let mut ctx = ParseContext::with_offset(Offset::new(0));
    let value = ctx.parse_checked(&tmp_vmdk_header(), &mut data).unwrap().ok().unwrap();
    assert!(matches!(value.kind, ValueKind::Struct(_)));
    assert_eq!(ctx.offset(), 512);

    let mut short = vec![0u8; 100];
    let mut ctx = ParseContext::with_offset(Offset::new(0));
    assert!(matches!(
        ctx.parse_checked(&tmp_vmdk_header(), &mut short),
        Some(Err(ParseErr::InputTooShort))
    ));
}

#[test]
fn checked_parsing_refuses_what_may_not_end() {
    let mut data = vec![0u8; 64];
    let mut ctx = ParseContext::with_offset(Offset::new(0));
    assert!(ctx.parse_checked(&header(), &mut data).is_none());
    assert_eq!(ctx.offset(), 0);
    let mut ctx = ParseContext::with_offset(Offset::new(u64::MAX - 10));
    assert!(ctx.parse_checked(&Node::integer(8, false), &mut data).is_none());
}

#[test]
fn parsed_values_know_where_they_were_read() {
    let mut data = vec![0u8; 16];
    let mut ctx = ParseContext::with_offset(Offset::new(0));
    let node = Node::structure(vec![
        (Symbol::new("a"), Node::integer(16, false)),
        (Symbol::new("b"), Node::integer(32, false).at(Expr::constant_int(8))),
    ]);
    let value = ctx.parse_checked(&node, &mut data).unwrap().ok().unwrap();
    let windows: Vec<(u64, u64)> =
        value.provenance.windows().iter().map(|w| (w.start(), w.end())).collect();
    assert_eq!(windows, vec![(0, 2), (8, 12)]);
    assert_eq!(ctx.offset(), 12);
}

#[test]
fn a_short_read_leaves_the_offset() {
    let mut data = vec![1u8, 2, 3];
    let mut ctx = ParseContext::with_offset(Offset::new(2));
    assert!(matches!(ctx.parse(&Node::integer(32, false), &mut data), Err(ParseErr::InputTooShort)));
    assert_eq!(ctx.offset(), 2);
}

#[test]
fn checked_parsing_repeats_as_often_as_a_field_says() {
    let mut data = vec![0u8; 64];
    data[0] = 3;
    let node = Node::structure(vec![
        (Symbol::new("n"), Node::integer(16, false)),
        (
            Symbol::new("items"),
            Node::repeat_count(Node::integer(8, false), Expr::variable(Symbol::new("n"))),
        ),
    ]);
    let mut ctx = ParseContext::with_offset(Offset::new(0));
    let value = ctx.parse_checked(&node, &mut data).unwrap().ok().unwrap();
    assert_eq!(ctx.offset(), 5);
    match &value.kind {
        ValueKind::Struct(fields) => match &fields[1].1.kind {
            ValueKind::Array(items) => assert_eq!(items.len(), 3),
            _ => panic!("items are not an array"),
        },
        _ => panic!("not a structure"),
    }
}

#[test]
fn a_short_read_in_a_structure_leaves_the_offset() {
    let mut data = vec![1u8, 2, 3, 4, 5];
    let node = Node::structure(vec![
        (Symbol::new("a"), Node::integer(16, false)),
        (Symbol::new("b"), Node::integer(32, false)),
    ]);
    let mut ctx = ParseContext::with_offset(Offset::new(1));
    assert!(matches!(ctx.parse(&node, &mut data), Err(ParseErr::InputTooShort)));
    assert_eq!(ctx.offset(), 1);
}

#[test]
fn nested_values_know_where_they_were_read() {
    let mut data = vec![0u8; 32];
    let inner = Node::structure(vec![
        (Symbol::new("x"), Node::integer(8, false)),
        (Symbol::new("y"), Node::integer(16, false)),
    ]);
    let node = Node::structure(vec![
        (Symbol::new("head"), Node::integer(32, false)),
        (Symbol::new("items"), Node::repeat_count(inner, Expr::constant_int(2))),
    ]);
    let mut ctx = ParseContext::with_offset(Offset::new(0));
    let value = ctx.parse_checked(&node, &mut data).unwrap().ok().unwrap();
    let windows = |v: &Value| -> Vec<(u64, u64)> {
        v.provenance.windows().iter().map(|w| (w.start(), w.end())).collect()
    };
    assert_eq!(windows(&value), vec![(0, 4), (4, 5), (5, 7), (7, 8), (8, 10)]);
    match &value.kind {
        ValueKind::Struct(fields) => match &fields[1].1.kind {
            ValueKind::Array(items) => {
                assert_eq!(windows(&items[1]), vec![(7, 8), (8, 10)]);
                match &items[1].kind {
                    ValueKind::Struct(inner_fields) => {
                        assert_eq!(windows(&inner_fields[1].1), vec![(8, 10)]);
                    }
                    _ => panic!("item is not a structure"),
                }
            }
            _ => panic!("items are not an array"),
        },
        _ => panic!("not a structure"),
    }
}
