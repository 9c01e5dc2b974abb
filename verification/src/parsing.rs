//! Implements the parsing capabilities of hexbait.
//!
//! Until descriptions of formats are read from text, the descriptions of a few well-known formats
//! are built here.


pub mod eval;
pub mod language;

use vstd::prelude::*;

use crate::parsing::language::ast::{
    counter_before, field_layout, field_shape, layout_spans, lemma_field_layout_len, lemma_fixed_fields, spans_disjoint, BinOp, Expr,
    FieldShape, Node, SExpr, SNode, SNodeKind, Symbol, UnOp,
};

verus! {

/// The description that `tmp_pe_file` builds, as plain values.
pub open spec fn spec_pe_file() -> SNode {
    SNode::structure(
        seq![
            (
                "mz_header"@,
                SNode::structure(
                    seq![
                        (
                            "mz_magic"@,
                            SNode::fixed_bytes(SExpr::constant_bytes(seq![0x4d, 0x5a])),
                        ),
                        (
                            "new_exe_header"@,
                            SNode::integer(32, false).at(SExpr::constant_int(60)),
                        ),
                    ],
                ),
            ),
            (
                "pe_header"@,
                SNode::structure(
                    seq![
                        (
                            "pe_magic"@,
                            SNode::fixed_bytes(SExpr::constant_bytes(seq![0x50, 0x45, 0x00, 0x00])),
                        ),
                        (
                            "machine"@,
                            SNode::integer(16, false),
                        ),
                        (
                            "num_of_sections"@,
                            SNode::integer(16, false),
                        ),
                        (
                            "time_date_stamp"@,
                            SNode::integer(32, false),
                        ),
                        (
                            "pointer_to_symbol_table"@,
                            SNode::integer(32, false),
                        ),
                        (
                            "num_of_symbols"@,
                            SNode::integer(32, false),
                        ),
                        (
                            "size_of_optional_header"@,
                            SNode::integer(16, false),
                        ),
                        (
                            "characteristics"@,
                            SNode::integer(16, false),
                        ),
                    ],
                ).at(SExpr::field_access(
                    SExpr::variable("mz_header"@),
                    "new_exe_header"@,
                )),
            ),
            (
                "optional_header"@,
                SNode::structure(
                    seq![
                        (
                            "optional_magic"@,
                            SNode::fixed_bytes(SExpr::constant_bytes(seq![0x0b, 0x01])),
                        ),
                        (
                            "major_linker_version"@,
                            SNode::integer(8, false),
                        ),
                        (
                            "minor_linker_version"@,
                            SNode::integer(8, false),
                        ),
                        (
                            "size_of_code"@,
                            SNode::integer(32, false),
                        ),
                        (
                            "size_of_initialized_data"@,
                            SNode::integer(32, false),
                        ),
                        (
                            "size_of_uninitialized_data"@,
                            SNode::integer(32, false),
                        ),
                        (
                            "addr_of_entry_point"@,
                            SNode::integer(32, false),
                        ),
                        (
                            "base_of_code"@,
                            SNode::integer(32, false),
                        ),
                        (
                            "base_of_data"@,
                            SNode::integer(32, false),
                        ),
                    ],
                ),
            ),
            (
                "sections"@,
                SNode::repeat_count(
                    SNode::structure(
                        seq![
                            (
                                "section_name"@,
                                SNode::fixed_length(SExpr::constant_int(8)),
                            ),
                            (
                                "virtual_size"@,
                                SNode::integer(32, false),
                            ),
                            (
                                "virtual_address"@,
                                SNode::integer(32, false),
                            ),
                            (
                                "size_of_raw_data"@,
                                SNode::integer(32, false),
                            ),
                            (
                                "pointer_to_raw_data"@,
                                SNode::integer(32, false),
                            ),
                            (
                                "pointer_to_relocations"@,
                                SNode::integer(32, false),
                            ),
                            (
                                "pointer_to_line_numbers"@,
                                SNode::integer(32, false),
                            ),
                            (
                                "number_of_relocations"@,
                                SNode::integer(16, false),
                            ),
                            (
                                "number_of_line_numbers"@,
                                SNode::integer(16, false),
                            ),
                            (
                                "characteristics"@,
                                SNode::integer(32, false),
                            ),
                            (
                                "content"@,
                                SNode::elsewhere(SNode::fixed_length(SExpr::variable("size_of_raw_data"@)).at(SExpr::variable("pointer_to_raw_data"@))),
                            ),
                        ],
                    ),
                    SExpr::field_access(
                        SExpr::variable("pe_header"@),
                        "num_of_sections"@,
                    ),
                ).at(SExpr::bin_op(
                    SExpr::field_access(
                        SExpr::variable("pe_header"@),
                        "size_of_optional_header"@,
                    ),
                    BinOp::Add,
                    SExpr::bin_op(
                        SExpr::constant_int(24),
                        BinOp::Add,
                        SExpr::field_access(
                            SExpr::variable("mz_header"@),
                            "new_exe_header"@,
                        ),
                    ),
                )),
            ),
        ],
    )
}

/// Describes a PE executable: the MZ header, the PE header with its optional header and the section table.
pub fn tmp_pe_file() -> (r: Node)
    ensures
        r.wf(),
        r.deep() == spec_pe_file(),
{
    let r =
        Node::structure(
            vec![
                (
                    Symbol::new("mz_header"),
                    Node::structure(
                        vec![
                            (
                                Symbol::new("mz_magic"),
                                Node::fixed_bytes(Expr::constant_bytes(vec![0x4d, 0x5a])),
                            ),
                            (
                                Symbol::new("new_exe_header"),
                                Node::integer(32, false).at(Expr::constant_int(60)),
                            ),
                        ],
                    ),
                ),
                (
                    Symbol::new("pe_header"),
                    Node::structure(
                        vec![
                            (
                                Symbol::new("pe_magic"),
                                Node::fixed_bytes(Expr::constant_bytes(vec![0x50, 0x45, 0x00, 0x00])),
                            ),
                            (
                                Symbol::new("machine"),
                                Node::integer(16, false),
                            ),
                            (
                                Symbol::new("num_of_sections"),
                                Node::integer(16, false),
                            ),
                            (
                                Symbol::new("time_date_stamp"),
                                Node::integer(32, false),
                            ),
                            (
                                Symbol::new("pointer_to_symbol_table"),
                                Node::integer(32, false),
                            ),
                            (
                                Symbol::new("num_of_symbols"),
                                Node::integer(32, false),
                            ),
                            (
                                Symbol::new("size_of_optional_header"),
                                Node::integer(16, false),
                            ),
                            (
                                Symbol::new("characteristics"),
                                Node::integer(16, false),
                            ),
                        ],
                    ).at(Expr::field_access(
                        Expr::variable(Symbol::new("mz_header")),
                        Symbol::new("new_exe_header"),
                    )),
                ),
                (
                    Symbol::new("optional_header"),
                    Node::structure(
                        vec![
                            (
                                Symbol::new("optional_magic"),
                                Node::fixed_bytes(Expr::constant_bytes(vec![0x0b, 0x01])),
                            ),
                            (
                                Symbol::new("major_linker_version"),
                                Node::integer(8, false),
                            ),
                            (
                                Symbol::new("minor_linker_version"),
                                Node::integer(8, false),
                            ),
                            (
                                Symbol::new("size_of_code"),
                                Node::integer(32, false),
                            ),
                            (
                                Symbol::new("size_of_initialized_data"),
                                Node::integer(32, false),
                            ),
                            (
                                Symbol::new("size_of_uninitialized_data"),
                                Node::integer(32, false),
                            ),
                            (
                                Symbol::new("addr_of_entry_point"),
                                Node::integer(32, false),
                            ),
                            (
                                Symbol::new("base_of_code"),
                                Node::integer(32, false),
                            ),
                            (
                                Symbol::new("base_of_data"),
                                Node::integer(32, false),
                            ),
                        ],
                    ),
                ),
                (
                    Symbol::new("sections"),
                    Node::repeat_count(
                        Node::structure(
                            vec![
                                (
                                    Symbol::new("section_name"),
                                    Node::fixed_length(Expr::constant_int(8)),
                                ),
                                (
                                    Symbol::new("virtual_size"),
                                    Node::integer(32, false),
                                ),
                                (
                                    Symbol::new("virtual_address"),
                                    Node::integer(32, false),
                                ),
                                (
                                    Symbol::new("size_of_raw_data"),
                                    Node::integer(32, false),
                                ),
                                (
                                    Symbol::new("pointer_to_raw_data"),
                                    Node::integer(32, false),
                                ),
                                (
                                    Symbol::new("pointer_to_relocations"),
                                    Node::integer(32, false),
                                ),
                                (
                                    Symbol::new("pointer_to_line_numbers"),
                                    Node::integer(32, false),
                                ),
                                (
                                    Symbol::new("number_of_relocations"),
                                    Node::integer(16, false),
                                ),
                                (
                                    Symbol::new("number_of_line_numbers"),
                                    Node::integer(16, false),
                                ),
                                (
                                    Symbol::new("characteristics"),
                                    Node::integer(32, false),
                                ),
                                (
                                    Symbol::new("content"),
                                    Node::elsewhere(Node::fixed_length(Expr::variable(Symbol::new("size_of_raw_data"))).at(Expr::variable(Symbol::new("pointer_to_raw_data")))),
                                ),
                            ],
                        ),
                        Expr::field_access(
                            Expr::variable(Symbol::new("pe_header")),
                            Symbol::new("num_of_sections"),
                        ),
                    ).at(Expr::bin_op(
                        Expr::field_access(
                            Expr::variable(Symbol::new("pe_header")),
                            Symbol::new("size_of_optional_header"),
                        ),
                        BinOp::Add,
                        Expr::bin_op(
                            Expr::constant_int(24),
                            BinOp::Add,
                            Expr::field_access(
                                Expr::variable(Symbol::new("mz_header")),
                                Symbol::new("new_exe_header"),
                            ),
                        ),
                    )),
                ),
            ],
        );
    proof {
        // the byte and field sequences are equal element by element, innermost first
        let a = r.deep();
        let b = spec_pe_file();
        assert(a.kind->Struct_0[0].1.kind->Struct_0[0].1.kind->FixedBytes_0->ConstantBytes_0 =~= b.kind->Struct_0[0].1.kind->Struct_0[0].1.kind->FixedBytes_0->ConstantBytes_0);
        assert(a.kind->Struct_0[0].1.kind->Struct_0[0].1.kind->FixedBytes_0 == b.kind->Struct_0[0].1.kind->Struct_0[0].1.kind->FixedBytes_0);
        assert(a.kind->Struct_0[0].1.kind->Struct_0[0].1 == b.kind->Struct_0[0].1.kind->Struct_0[0].1);
        assert forall|i: int| 0 <= i < 2 implies a.kind->Struct_0[0].1.kind->Struct_0[i] == b.kind->Struct_0[0].1.kind->Struct_0[i] by {
            if i == 0 {} else if i == 1 {}
        }
        assert(a.kind->Struct_0[0].1.kind->Struct_0 =~= b.kind->Struct_0[0].1.kind->Struct_0);
        assert(a.kind->Struct_0[0].1 == b.kind->Struct_0[0].1);
        assert(a.kind->Struct_0[1].1.kind->Struct_0[0].1.kind->FixedBytes_0->ConstantBytes_0 =~= b.kind->Struct_0[1].1.kind->Struct_0[0].1.kind->FixedBytes_0->ConstantBytes_0);
        assert(a.kind->Struct_0[1].1.kind->Struct_0[0].1.kind->FixedBytes_0 == b.kind->Struct_0[1].1.kind->Struct_0[0].1.kind->FixedBytes_0);
        assert(a.kind->Struct_0[1].1.kind->Struct_0[0].1 == b.kind->Struct_0[1].1.kind->Struct_0[0].1);
        assert forall|i: int| 0 <= i < 8 implies a.kind->Struct_0[1].1.kind->Struct_0[i] == b.kind->Struct_0[1].1.kind->Struct_0[i] by {
            if i == 0 {} else if i == 1 {} else if i == 2 {} else if i == 3 {} else if i == 4 {} else if i == 5 {} else if i == 6 {} else if i == 7 {}
        }
        assert(a.kind->Struct_0[1].1.kind->Struct_0 =~= b.kind->Struct_0[1].1.kind->Struct_0);
        assert(a.kind->Struct_0[1].1 == b.kind->Struct_0[1].1);
        assert(a.kind->Struct_0[2].1.kind->Struct_0[0].1.kind->FixedBytes_0->ConstantBytes_0 =~= b.kind->Struct_0[2].1.kind->Struct_0[0].1.kind->FixedBytes_0->ConstantBytes_0);
        assert(a.kind->Struct_0[2].1.kind->Struct_0[0].1.kind->FixedBytes_0 == b.kind->Struct_0[2].1.kind->Struct_0[0].1.kind->FixedBytes_0);
        assert(a.kind->Struct_0[2].1.kind->Struct_0[0].1 == b.kind->Struct_0[2].1.kind->Struct_0[0].1);
        assert forall|i: int| 0 <= i < 9 implies a.kind->Struct_0[2].1.kind->Struct_0[i] == b.kind->Struct_0[2].1.kind->Struct_0[i] by {
            if i == 0 {} else if i == 1 {} else if i == 2 {} else if i == 3 {} else if i == 4 {} else if i == 5 {} else if i == 6 {} else if i == 7 {} else if i == 8 {}
        }
        assert(a.kind->Struct_0[2].1.kind->Struct_0 =~= b.kind->Struct_0[2].1.kind->Struct_0);
        assert(a.kind->Struct_0[2].1 == b.kind->Struct_0[2].1);
        assert forall|i: int| 0 <= i < 11 implies a.kind->Struct_0[3].1.kind->RepeatCount_0.kind->Struct_0[i] == b.kind->Struct_0[3].1.kind->RepeatCount_0.kind->Struct_0[i] by {
            if i == 0 {} else if i == 1 {} else if i == 2 {} else if i == 3 {} else if i == 4 {} else if i == 5 {} else if i == 6 {} else if i == 7 {} else if i == 8 {} else if i == 9 {} else if i == 10 {}
        }
        assert(a.kind->Struct_0[3].1.kind->RepeatCount_0.kind->Struct_0 =~= b.kind->Struct_0[3].1.kind->RepeatCount_0.kind->Struct_0);
        assert(a.kind->Struct_0[3].1.kind->RepeatCount_0 == b.kind->Struct_0[3].1.kind->RepeatCount_0);
        assert(a.kind->Struct_0[3].1 == b.kind->Struct_0[3].1);
        assert forall|i: int| 0 <= i < 4 implies a.kind->Struct_0[i] == b.kind->Struct_0[i] by {
            if i == 0 {} else if i == 1 {} else if i == 2 {} else if i == 3 {}
        }
        assert(a.kind->Struct_0 =~= b.kind->Struct_0);
    }
    r
}

/// The description that `tmp_mft_entry` builds, as plain values.
pub open spec fn spec_mft_entry() -> SNode {
    SNode::structure(
        seq![
            (
                "header"@,
                SNode::structure(
                    seq![
                        (
                            "magic"@,
                            SNode::fixed_bytes(SExpr::constant_bytes(seq![0x46, 0x49, 0x4c, 0x45])),
                        ),
                        (
                            "fixup_value_offset"@,
                            SNode::integer(16, false),
                        ),
                        (
                            "num_fixup_values"@,
                            SNode::integer(16, false),
                        ),
                        (
                            "log_sequence_number"@,
                            SNode::integer(64, false),
                        ),
                        (
                            "sequence_number"@,
                            SNode::integer(16, false),
                        ),
                        (
                            "reference_count"@,
                            SNode::integer(16, false),
                        ),
                        (
                            "first_attribute"@,
                            SNode::integer(16, false),
                        ),
                        (
                            "entry_flags"@,
                            SNode::integer(16, false),
                        ),
                        (
                            "used_entry_size"@,
                            SNode::integer(32, false),
                        ),
                        (
                            "total_entry_size"@,
                            SNode::integer(32, false),
                        ),
                        (
                            "file_reference"@,
                            SNode::integer(64, false),
                        ),
                        (
                            "first_attribute_identifier"@,
                            SNode::integer(16, false),
                        ),
                    ],
                ),
            ),
            (
                "attributes"@,
                SNode::repeat_while(
                    SNode::structure(
                        seq![
                            (
                                "type"@,
                                SNode::integer(32, false),
                            ),
                            (
                                "size"@,
                                SNode::integer(32, false),
                            ),
                            (
                                "nonresident"@,
                                SNode::integer(8, false),
                            ),
                            (
                                "name_size"@,
                                SNode::integer(8, false),
                            ),
                            (
                                "name_offset"@,
                                SNode::integer(16, false),
                            ),
                            (
                                "attribute_data_flags"@,
                                SNode::integer(16, false),
                            ),
                            (
                                "attribute_identifier"@,
                                SNode::integer(16, false),
                            ),
                            (
                                "data"@,
                                SNode::switch(
                                    SExpr::variable("nonresident"@),
                                    seq![
                                        (
                                            SExpr::constant_int(0),
                                            SNode::structure(
                                                seq![
                                                    (
                                                        "data_size"@,
                                                        SNode::integer(32, false),
                                                    ),
                                                    (
                                                        "data_offset"@,
                                                        SNode::integer(16, false),
                                                    ),
                                                    (
                                                        "indexed_flag"@,
                                                        SNode::integer(8, false),
                                                    ),
                                                    (
                                                        "padding"@,
                                                        SNode::fixed_bytes(SExpr::constant_bytes(seq![0x00])),
                                                    ),
                                                    (
                                                        "content"@,
                                                        SNode::switch(
                                                            SExpr::field_access(
                                                                SExpr::parent(),
                                                                "type"@,
                                                            ),
                                                            seq![
                                                                (
                                                                    SExpr::constant_int(16),
                                                                    SNode::named("mft_attr_stdinfo"@),
                                                                ),
                                                                (
                                                                    SExpr::constant_int(48),
                                                                    SNode::structure(
                                                                        seq![
                                                                            (
                                                                                "attribute_content"@,
                                                                                SNode::named("mft_attr_filename"@),
                                                                            ),
                                                                            (
                                                                                "unused"@,
                                                                                SNode::fixed_length(SExpr::bin_op(
                                                                                    SExpr::field_access(
                                                                                        SExpr::parent(),
                                                                                        "data_size"@,
                                                                                    ),
                                                                                    BinOp::Sub,
                                                                                    SExpr::bin_op(
                                                                                        SExpr::bin_op(
                                                                                            SExpr::field_access(
                                                                                                SExpr::variable("attribute_content"@),
                                                                                                "name_string_size"@,
                                                                                            ),
                                                                                            BinOp::Mul,
                                                                                            SExpr::constant_int(2),
                                                                                        ),
                                                                                        BinOp::Add,
                                                                                        SExpr::constant_int(66),
                                                                                    ),
                                                                                )),
                                                                            ),
                                                                        ],
                                                                    ),
                                                                ),
                                                                (
                                                                    SExpr::constant_int(144),
                                                                    SNode::named("mft_index_root"@),
                                                                ),
                                                            ],
                                                            SNode::fixed_length(SExpr::variable("data_size"@)),
                                                        ).at(SExpr::bin_op(
                                                            SExpr::offset(),
                                                            BinOp::Add,
                                                            SExpr::bin_op(
                                                                SExpr::variable("data_offset"@),
                                                                BinOp::Sub,
                                                                SExpr::constant_int(24),
                                                            ),
                                                        )),
                                                    ),
                                                    (
                                                        "unused"@,
                                                        SNode::fixed_length(SExpr::bin_op(
                                                            SExpr::field_access(
                                                                SExpr::parent(),
                                                                "size"@,
                                                            ),
                                                            BinOp::Sub,
                                                            SExpr::bin_op(
                                                                SExpr::variable("data_offset"@),
                                                                BinOp::Add,
                                                                SExpr::variable("data_size"@),
                                                            ),
                                                        )),
                                                    ),
                                                ],
                                            ),
                                        ),
                                    ],
                                    SNode::structure(
                                        seq![
                                            (
                                                "first_virtual_cluster_number"@,
                                                SNode::integer(64, false),
                                            ),
                                            (
                                                "last_virtual_cluster_number"@,
                                                SNode::integer(64, false),
                                            ),
                                            (
                                                "data_runs_offset"@,
                                                SNode::integer(16, false),
                                            ),
                                            (
                                                "compression_unit_size"@,
                                                SNode::integer(16, false),
                                            ),
                                            (
                                                "padding"@,
                                                SNode::fixed_bytes(SExpr::constant_bytes(seq![0x00, 0x00, 0x00, 0x00])),
                                            ),
                                            (
                                                "allocated_data_size"@,
                                                SNode::integer(64, false),
                                            ),
                                            (
                                                "data_size"@,
                                                SNode::integer(64, false),
                                            ),
                                            (
                                                "valid_data_size"@,
                                                SNode::integer(64, false),
                                            ),
                                            (
                                                "total_allocated_size"@,
                                                SNode::integer(64, false),
                                            ),
                                            (
                                                "rest"@,
                                                SNode::fixed_length(SExpr::bin_op(
                                                    SExpr::field_access(
                                                        SExpr::parent(),
                                                        "size"@,
                                                    ),
                                                    BinOp::Sub,
                                                    SExpr::constant_int(72),
                                                )),
                                            ),
                                        ],
                                    ),
                                ),
                            ),
                        ],
                    ),
                    SExpr::un_op(UnOp::Not, SExpr::bin_op(
                        SExpr::parse_at(SNode::fixed_length(SExpr::constant_int(4))),
                        BinOp::Eq,
                        SExpr::constant_bytes(seq![0xff, 0xff, 0xff, 0xff]),
                    )),
                ).at(SExpr::field_access(
                    SExpr::variable("header"@),
                    "first_attribute"@,
                )),
            ),
        ],
    )
}

/// Describes an entry of the NTFS master file table with its attributes.
pub fn tmp_mft_entry() -> (r: Node)
    ensures
        r.wf(),
        r.deep() == spec_mft_entry(),
{
    let r =
        Node::structure(
            vec![
                (
                    Symbol::new("header"),
                    Node::structure(
                        vec![
                            (
                                Symbol::new("magic"),
                                Node::fixed_bytes(Expr::constant_bytes(vec![0x46, 0x49, 0x4c, 0x45])),
                            ),
                            (
                                Symbol::new("fixup_value_offset"),
                                Node::integer(16, false),
                            ),
                            (
                                Symbol::new("num_fixup_values"),
                                Node::integer(16, false),
                            ),
                            (
                                Symbol::new("log_sequence_number"),
                                Node::integer(64, false),
                            ),
                            (
                                Symbol::new("sequence_number"),
                                Node::integer(16, false),
                            ),
                            (
                                Symbol::new("reference_count"),
                                Node::integer(16, false),
                            ),
                            (
                                Symbol::new("first_attribute"),
                                Node::integer(16, false),
                            ),
                            (
                                Symbol::new("entry_flags"),
                                Node::integer(16, false),
                            ),
                            (
                                Symbol::new("used_entry_size"),
                                Node::integer(32, false),
                            ),
                            (
                                Symbol::new("total_entry_size"),
                                Node::integer(32, false),
                            ),
                            (
                                Symbol::new("file_reference"),
                                Node::integer(64, false),
                            ),
                            (
                                Symbol::new("first_attribute_identifier"),
                                Node::integer(16, false),
                            ),
                        ],
                    ),
                ),
                (
                    Symbol::new("attributes"),
                    Node::repeat_while(
                        Node::structure(
                            vec![
                                (
                                    Symbol::new("type"),
                                    Node::integer(32, false),
                                ),
                                (
                                    Symbol::new("size"),
                                    Node::integer(32, false),
                                ),
                                (
                                    Symbol::new("nonresident"),
                                    Node::integer(8, false),
                                ),
                                (
                                    Symbol::new("name_size"),
                                    Node::integer(8, false),
                                ),
                                (
                                    Symbol::new("name_offset"),
                                    Node::integer(16, false),
                                ),
                                (
                                    Symbol::new("attribute_data_flags"),
                                    Node::integer(16, false),
                                ),
                                (
                                    Symbol::new("attribute_identifier"),
                                    Node::integer(16, false),
                                ),
                                (
                                    Symbol::new("data"),
                                    Node::switch(
                                        Expr::variable(Symbol::new("nonresident")),
                                        vec![
                                            (
                                                Expr::constant_int(0),
                                                Node::structure(
                                                    vec![
                                                        (
                                                            Symbol::new("data_size"),
                                                            Node::integer(32, false),
                                                        ),
                                                        (
                                                            Symbol::new("data_offset"),
                                                            Node::integer(16, false),
                                                        ),
                                                        (
                                                            Symbol::new("indexed_flag"),
                                                            Node::integer(8, false),
                                                        ),
                                                        (
                                                            Symbol::new("padding"),
                                                            Node::fixed_bytes(Expr::constant_bytes(vec![0x00])),
                                                        ),
                                                        (
                                                            Symbol::new("content"),
                                                            Node::switch(
                                                                Expr::field_access(
                                                                    Expr::parent(),
                                                                    Symbol::new("type"),
                                                                ),
                                                                vec![
                                                                    (
                                                                        Expr::constant_int(16),
                                                                        Node::named(Symbol::new("mft_attr_stdinfo")),
                                                                    ),
                                                                    (
                                                                        Expr::constant_int(48),
                                                                        Node::structure(
                                                                            vec![
                                                                                (
                                                                                    Symbol::new("attribute_content"),
                                                                                    Node::named(Symbol::new("mft_attr_filename")),
                                                                                ),
                                                                                (
                                                                                    Symbol::new("unused"),
                                                                                    Node::fixed_length(Expr::bin_op(
                                                                                        Expr::field_access(
                                                                                            Expr::parent(),
                                                                                            Symbol::new("data_size"),
                                                                                        ),
                                                                                        BinOp::Sub,
                                                                                        Expr::bin_op(
                                                                                            Expr::bin_op(
                                                                                                Expr::field_access(
                                                                                                    Expr::variable(Symbol::new("attribute_content")),
                                                                                                    Symbol::new("name_string_size"),
                                                                                                ),
                                                                                                BinOp::Mul,
                                                                                                Expr::constant_int(2),
                                                                                            ),
                                                                                            BinOp::Add,
                                                                                            Expr::constant_int(66),
                                                                                        ),
                                                                                    )),
                                                                                ),
                                                                            ],
                                                                        ),
                                                                    ),
                                                                    (
                                                                        Expr::constant_int(144),
                                                                        Node::named(Symbol::new("mft_index_root")),
                                                                    ),
                                                                ],
                                                                Node::fixed_length(Expr::variable(Symbol::new("data_size"))),
                                                            ).at(Expr::bin_op(
                                                                Expr::offset(),
                                                                BinOp::Add,
                                                                Expr::bin_op(
                                                                    Expr::variable(Symbol::new("data_offset")),
                                                                    BinOp::Sub,
                                                                    Expr::constant_int(24),
                                                                ),
                                                            )),
                                                        ),
                                                        (
                                                            Symbol::new("unused"),
                                                            Node::fixed_length(Expr::bin_op(
                                                                Expr::field_access(
                                                                    Expr::parent(),
                                                                    Symbol::new("size"),
                                                                ),
                                                                BinOp::Sub,
                                                                Expr::bin_op(
                                                                    Expr::variable(Symbol::new("data_offset")),
                                                                    BinOp::Add,
                                                                    Expr::variable(Symbol::new("data_size")),
                                                                ),
                                                            )),
                                                        ),
                                                    ],
                                                ),
                                            ),
                                        ],
                                        Node::structure(
                                            vec![
                                                (
                                                    Symbol::new("first_virtual_cluster_number"),
                                                    Node::integer(64, false),
                                                ),
                                                (
                                                    Symbol::new("last_virtual_cluster_number"),
                                                    Node::integer(64, false),
                                                ),
                                                (
                                                    Symbol::new("data_runs_offset"),
                                                    Node::integer(16, false),
                                                ),
                                                (
                                                    Symbol::new("compression_unit_size"),
                                                    Node::integer(16, false),
                                                ),
                                                (
                                                    Symbol::new("padding"),
                                                    Node::fixed_bytes(Expr::constant_bytes(vec![0x00, 0x00, 0x00, 0x00])),
                                                ),
                                                (
                                                    Symbol::new("allocated_data_size"),
                                                    Node::integer(64, false),
                                                ),
                                                (
                                                    Symbol::new("data_size"),
                                                    Node::integer(64, false),
                                                ),
                                                (
                                                    Symbol::new("valid_data_size"),
                                                    Node::integer(64, false),
                                                ),
                                                (
                                                    Symbol::new("total_allocated_size"),
                                                    Node::integer(64, false),
                                                ),
                                                (
                                                    Symbol::new("rest"),
                                                    Node::fixed_length(Expr::bin_op(
                                                        Expr::field_access(
                                                            Expr::parent(),
                                                            Symbol::new("size"),
                                                        ),
                                                        BinOp::Sub,
                                                        Expr::constant_int(72),
                                                    )),
                                                ),
                                            ],
                                        ),
                                    ),
                                ),
                            ],
                        ),
                        Expr::un_op(UnOp::Not, Expr::bin_op(
                            Expr::parse_at(Node::fixed_length(Expr::constant_int(4))),
                            BinOp::Eq,
                            Expr::constant_bytes(vec![0xff, 0xff, 0xff, 0xff]),
                        )),
                    ).at(Expr::field_access(
                        Expr::variable(Symbol::new("header")),
                        Symbol::new("first_attribute"),
                    )),
                ),
            ],
        );
    proof {
        // the byte and field sequences are equal element by element, innermost first
        let a = r.deep();
        let b = spec_mft_entry();
        assert(a.kind->Struct_0[0].1.kind->Struct_0[0].1.kind->FixedBytes_0->ConstantBytes_0 =~= b.kind->Struct_0[0].1.kind->Struct_0[0].1.kind->FixedBytes_0->ConstantBytes_0);
        assert(a.kind->Struct_0[0].1.kind->Struct_0[0].1.kind->FixedBytes_0 == b.kind->Struct_0[0].1.kind->Struct_0[0].1.kind->FixedBytes_0);
        assert(a.kind->Struct_0[0].1.kind->Struct_0[0].1 == b.kind->Struct_0[0].1.kind->Struct_0[0].1);
        assert forall|i: int| 0 <= i < 12 implies a.kind->Struct_0[0].1.kind->Struct_0[i] == b.kind->Struct_0[0].1.kind->Struct_0[i] by {
            if i == 0 {} else if i == 1 {} else if i == 2 {} else if i == 3 {} else if i == 4 {} else if i == 5 {} else if i == 6 {} else if i == 7 {} else if i == 8 {} else if i == 9 {} else if i == 10 {} else if i == 11 {}
        }
        assert(a.kind->Struct_0[0].1.kind->Struct_0 =~= b.kind->Struct_0[0].1.kind->Struct_0);
        assert(a.kind->Struct_0[0].1 == b.kind->Struct_0[0].1);
        assert(a.kind->Struct_0[1].1.kind->RepeatWhile_0.kind->Struct_0[7].1.kind->Switch_1[0].1.kind->Struct_0[3].1.kind->FixedBytes_0->ConstantBytes_0 =~= b.kind->Struct_0[1].1.kind->RepeatWhile_0.kind->Struct_0[7].1.kind->Switch_1[0].1.kind->Struct_0[3].1.kind->FixedBytes_0->ConstantBytes_0);
        assert(a.kind->Struct_0[1].1.kind->RepeatWhile_0.kind->Struct_0[7].1.kind->Switch_1[0].1.kind->Struct_0[3].1.kind->FixedBytes_0 == b.kind->Struct_0[1].1.kind->RepeatWhile_0.kind->Struct_0[7].1.kind->Switch_1[0].1.kind->Struct_0[3].1.kind->FixedBytes_0);
        assert(a.kind->Struct_0[1].1.kind->RepeatWhile_0.kind->Struct_0[7].1.kind->Switch_1[0].1.kind->Struct_0[3].1 == b.kind->Struct_0[1].1.kind->RepeatWhile_0.kind->Struct_0[7].1.kind->Switch_1[0].1.kind->Struct_0[3].1);
        assert forall|i: int| 0 <= i < 2 implies a.kind->Struct_0[1].1.kind->RepeatWhile_0.kind->Struct_0[7].1.kind->Switch_1[0].1.kind->Struct_0[4].1.kind->Switch_1[1].1.kind->Struct_0[i] == b.kind->Struct_0[1].1.kind->RepeatWhile_0.kind->Struct_0[7].1.kind->Switch_1[0].1.kind->Struct_0[4].1.kind->Switch_1[1].1.kind->Struct_0[i] by {
            if i == 0 {} else if i == 1 {}
        }
        assert(a.kind->Struct_0[1].1.kind->RepeatWhile_0.kind->Struct_0[7].1.kind->Switch_1[0].1.kind->Struct_0[4].1.kind->Switch_1[1].1.kind->Struct_0 =~= b.kind->Struct_0[1].1.kind->RepeatWhile_0.kind->Struct_0[7].1.kind->Switch_1[0].1.kind->Struct_0[4].1.kind->Switch_1[1].1.kind->Struct_0);
        assert(a.kind->Struct_0[1].1.kind->RepeatWhile_0.kind->Struct_0[7].1.kind->Switch_1[0].1.kind->Struct_0[4].1.kind->Switch_1[1].1 == b.kind->Struct_0[1].1.kind->RepeatWhile_0.kind->Struct_0[7].1.kind->Switch_1[0].1.kind->Struct_0[4].1.kind->Switch_1[1].1);
        assert forall|i: int| 0 <= i < 3 implies a.kind->Struct_0[1].1.kind->RepeatWhile_0.kind->Struct_0[7].1.kind->Switch_1[0].1.kind->Struct_0[4].1.kind->Switch_1[i] == b.kind->Struct_0[1].1.kind->RepeatWhile_0.kind->Struct_0[7].1.kind->Switch_1[0].1.kind->Struct_0[4].1.kind->Switch_1[i] by {
            if i == 0 {} else if i == 1 {} else if i == 2 {}
        }
        assert(a.kind->Struct_0[1].1.kind->RepeatWhile_0.kind->Struct_0[7].1.kind->Switch_1[0].1.kind->Struct_0[4].1.kind->Switch_1 =~= b.kind->Struct_0[1].1.kind->RepeatWhile_0.kind->Struct_0[7].1.kind->Switch_1[0].1.kind->Struct_0[4].1.kind->Switch_1);
        assert(a.kind->Struct_0[1].1.kind->RepeatWhile_0.kind->Struct_0[7].1.kind->Switch_1[0].1.kind->Struct_0[4].1 == b.kind->Struct_0[1].1.kind->RepeatWhile_0.kind->Struct_0[7].1.kind->Switch_1[0].1.kind->Struct_0[4].1);
        assert forall|i: int| 0 <= i < 6 implies a.kind->Struct_0[1].1.kind->RepeatWhile_0.kind->Struct_0[7].1.kind->Switch_1[0].1.kind->Struct_0[i] == b.kind->Struct_0[1].1.kind->RepeatWhile_0.kind->Struct_0[7].1.kind->Switch_1[0].1.kind->Struct_0[i] by {
            if i == 0 {} else if i == 1 {} else if i == 2 {} else if i == 3 {} else if i == 4 {} else if i == 5 {}
        }
        assert(a.kind->Struct_0[1].1.kind->RepeatWhile_0.kind->Struct_0[7].1.kind->Switch_1[0].1.kind->Struct_0 =~= b.kind->Struct_0[1].1.kind->RepeatWhile_0.kind->Struct_0[7].1.kind->Switch_1[0].1.kind->Struct_0);
        assert(a.kind->Struct_0[1].1.kind->RepeatWhile_0.kind->Struct_0[7].1.kind->Switch_1[0].1 == b.kind->Struct_0[1].1.kind->RepeatWhile_0.kind->Struct_0[7].1.kind->Switch_1[0].1);
        assert forall|i: int| 0 <= i < 1 implies a.kind->Struct_0[1].1.kind->RepeatWhile_0.kind->Struct_0[7].1.kind->Switch_1[i] == b.kind->Struct_0[1].1.kind->RepeatWhile_0.kind->Struct_0[7].1.kind->Switch_1[i] by {
            if i == 0 {}
        }
        assert(a.kind->Struct_0[1].1.kind->RepeatWhile_0.kind->Struct_0[7].1.kind->Switch_1 =~= b.kind->Struct_0[1].1.kind->RepeatWhile_0.kind->Struct_0[7].1.kind->Switch_1);
        assert(a.kind->Struct_0[1].1.kind->RepeatWhile_0.kind->Struct_0[7].1.kind->Switch_2.kind->Struct_0[4].1.kind->FixedBytes_0->ConstantBytes_0 =~= b.kind->Struct_0[1].1.kind->RepeatWhile_0.kind->Struct_0[7].1.kind->Switch_2.kind->Struct_0[4].1.kind->FixedBytes_0->ConstantBytes_0);
        assert(a.kind->Struct_0[1].1.kind->RepeatWhile_0.kind->Struct_0[7].1.kind->Switch_2.kind->Struct_0[4].1.kind->FixedBytes_0 == b.kind->Struct_0[1].1.kind->RepeatWhile_0.kind->Struct_0[7].1.kind->Switch_2.kind->Struct_0[4].1.kind->FixedBytes_0);
        assert(a.kind->Struct_0[1].1.kind->RepeatWhile_0.kind->Struct_0[7].1.kind->Switch_2.kind->Struct_0[4].1 == b.kind->Struct_0[1].1.kind->RepeatWhile_0.kind->Struct_0[7].1.kind->Switch_2.kind->Struct_0[4].1);
        assert forall|i: int| 0 <= i < 10 implies a.kind->Struct_0[1].1.kind->RepeatWhile_0.kind->Struct_0[7].1.kind->Switch_2.kind->Struct_0[i] == b.kind->Struct_0[1].1.kind->RepeatWhile_0.kind->Struct_0[7].1.kind->Switch_2.kind->Struct_0[i] by {
            if i == 0 {} else if i == 1 {} else if i == 2 {} else if i == 3 {} else if i == 4 {} else if i == 5 {} else if i == 6 {} else if i == 7 {} else if i == 8 {} else if i == 9 {}
        }
        assert(a.kind->Struct_0[1].1.kind->RepeatWhile_0.kind->Struct_0[7].1.kind->Switch_2.kind->Struct_0 =~= b.kind->Struct_0[1].1.kind->RepeatWhile_0.kind->Struct_0[7].1.kind->Switch_2.kind->Struct_0);
        assert(a.kind->Struct_0[1].1.kind->RepeatWhile_0.kind->Struct_0[7].1.kind->Switch_2 == b.kind->Struct_0[1].1.kind->RepeatWhile_0.kind->Struct_0[7].1.kind->Switch_2);
        assert(a.kind->Struct_0[1].1.kind->RepeatWhile_0.kind->Struct_0[7].1 == b.kind->Struct_0[1].1.kind->RepeatWhile_0.kind->Struct_0[7].1);
        assert forall|i: int| 0 <= i < 8 implies a.kind->Struct_0[1].1.kind->RepeatWhile_0.kind->Struct_0[i] == b.kind->Struct_0[1].1.kind->RepeatWhile_0.kind->Struct_0[i] by {
            if i == 0 {} else if i == 1 {} else if i == 2 {} else if i == 3 {} else if i == 4 {} else if i == 5 {} else if i == 6 {} else if i == 7 {}
        }
        assert(a.kind->Struct_0[1].1.kind->RepeatWhile_0.kind->Struct_0 =~= b.kind->Struct_0[1].1.kind->RepeatWhile_0.kind->Struct_0);
        assert(a.kind->Struct_0[1].1.kind->RepeatWhile_0 == b.kind->Struct_0[1].1.kind->RepeatWhile_0);
        assert(a.kind->Struct_0[1].1.kind->RepeatWhile_1->UnOp_0->BinOp_2->ConstantBytes_0 =~= b.kind->Struct_0[1].1.kind->RepeatWhile_1->UnOp_0->BinOp_2->ConstantBytes_0);
        assert(a.kind->Struct_0[1].1.kind->RepeatWhile_1->UnOp_0->BinOp_2 == b.kind->Struct_0[1].1.kind->RepeatWhile_1->UnOp_0->BinOp_2);
        assert(a.kind->Struct_0[1].1.kind->RepeatWhile_1->UnOp_0 == b.kind->Struct_0[1].1.kind->RepeatWhile_1->UnOp_0);
        assert(a.kind->Struct_0[1].1.kind->RepeatWhile_1 == b.kind->Struct_0[1].1.kind->RepeatWhile_1);
        assert(a.kind->Struct_0[1].1 == b.kind->Struct_0[1].1);
        assert forall|i: int| 0 <= i < 2 implies a.kind->Struct_0[i] == b.kind->Struct_0[i] by {
            if i == 0 {} else if i == 1 {}
        }
        assert(a.kind->Struct_0 =~= b.kind->Struct_0);
    }
    r
}

/// The description that `tmp_mft_standard_information` builds, as plain values.
pub open spec fn spec_mft_standard_information() -> SNode {
    SNode::structure(
        seq![
            (
                "creation_time"@,
                SNode::integer(64, false),
            ),
            (
                "modification_time"@,
                SNode::integer(64, false),
            ),
            (
                "changed_time"@,
                SNode::integer(64, false),
            ),
            (
                "access_time"@,
                SNode::integer(64, false),
            ),
            (
                "file_attribute_flags"@,
                SNode::integer(32, false),
            ),
            (
                "maximum_number_of_versions"@,
                SNode::integer(32, false),
            ),
            (
                "version_number"@,
                SNode::integer(32, false),
            ),
            (
                "class_identifier"@,
                SNode::integer(32, false),
            ),
            (
                "owner_identifier"@,
                SNode::integer(32, false),
            ),
            (
                "security_descriptor_identifier"@,
                SNode::integer(32, false),
            ),
            (
                "quota_charged"@,
                SNode::integer(64, false),
            ),
            (
                "update_sequence_number"@,
                SNode::integer(64, false),
            ),
        ],
    )
}

/// Describes the standard information attribute of an NTFS master file table entry.
pub fn tmp_mft_standard_information() -> (r: Node)
    ensures
        r.wf(),
        r.deep() == spec_mft_standard_information(),
{
    let r =
        Node::structure(
            vec![
                (
                    Symbol::new("creation_time"),
                    Node::integer(64, false),
                ),
                (
                    Symbol::new("modification_time"),
                    Node::integer(64, false),
                ),
                (
                    Symbol::new("changed_time"),
                    Node::integer(64, false),
                ),
                (
                    Symbol::new("access_time"),
                    Node::integer(64, false),
                ),
                (
                    Symbol::new("file_attribute_flags"),
                    Node::integer(32, false),
                ),
                (
                    Symbol::new("maximum_number_of_versions"),
                    Node::integer(32, false),
                ),
                (
                    Symbol::new("version_number"),
                    Node::integer(32, false),
                ),
                (
                    Symbol::new("class_identifier"),
                    Node::integer(32, false),
                ),
                (
                    Symbol::new("owner_identifier"),
                    Node::integer(32, false),
                ),
                (
                    Symbol::new("security_descriptor_identifier"),
                    Node::integer(32, false),
                ),
                (
                    Symbol::new("quota_charged"),
                    Node::integer(64, false),
                ),
                (
                    Symbol::new("update_sequence_number"),
                    Node::integer(64, false),
                ),
            ],
        );
    proof {
        // the byte and field sequences are equal element by element, innermost first
        let a = r.deep();
        let b = spec_mft_standard_information();
        assert forall|i: int| 0 <= i < 12 implies a.kind->Struct_0[i] == b.kind->Struct_0[i] by {
            if i == 0 {} else if i == 1 {} else if i == 2 {} else if i == 3 {} else if i == 4 {} else if i == 5 {} else if i == 6 {} else if i == 7 {} else if i == 8 {} else if i == 9 {} else if i == 10 {} else if i == 11 {}
        }
        assert(a.kind->Struct_0 =~= b.kind->Struct_0);
    }
    r
}

/// The description that `tmp_mft_file_name` builds, as plain values.
pub open spec fn spec_mft_file_name() -> SNode {
    SNode::structure(
        seq![
            (
                "parent_file_reference"@,
                SNode::integer(64, false),
            ),
            (
                "creation_time"@,
                SNode::integer(64, false),
            ),
            (
                "modification_time"@,
                SNode::integer(64, false),
            ),
            (
                "changed_time"@,
                SNode::integer(64, false),
            ),
            (
                "access_time"@,
                SNode::integer(64, false),
            ),
            (
                "allocated_file_size"@,
                SNode::integer(64, false),
            ),
            (
                "file_size"@,
                SNode::integer(64, false),
            ),
            (
                "file_attribute_flags"@,
                SNode::integer(32, false),
            ),
            (
                "extended_data"@,
                SNode::integer(32, false),
            ),
            (
                "name_string_size"@,
                SNode::integer(8, false),
            ),
            (
                "namespace"@,
                SNode::integer(8, false),
            ),
            (
                "name"@,
                SNode::fixed_length(SExpr::bin_op(
                    SExpr::variable("name_string_size"@),
                    BinOp::Mul,
                    SExpr::constant_int(2),
                )),
            ),
        ],
    )
}

/// Describes the file name attribute of an NTFS master file table entry.
pub fn tmp_mft_file_name() -> (r: Node)
    ensures
        r.wf(),
        r.deep() == spec_mft_file_name(),
{
    let r =
        Node::structure(
            vec![
                (
                    Symbol::new("parent_file_reference"),
                    Node::integer(64, false),
                ),
                (
                    Symbol::new("creation_time"),
                    Node::integer(64, false),
                ),
                (
                    Symbol::new("modification_time"),
                    Node::integer(64, false),
                ),
                (
                    Symbol::new("changed_time"),
                    Node::integer(64, false),
                ),
                (
                    Symbol::new("access_time"),
                    Node::integer(64, false),
                ),
                (
                    Symbol::new("allocated_file_size"),
                    Node::integer(64, false),
                ),
                (
                    Symbol::new("file_size"),
                    Node::integer(64, false),
                ),
                (
                    Symbol::new("file_attribute_flags"),
                    Node::integer(32, false),
                ),
                (
                    Symbol::new("extended_data"),
                    Node::integer(32, false),
                ),
                (
                    Symbol::new("name_string_size"),
                    Node::integer(8, false),
                ),
                (
                    Symbol::new("namespace"),
                    Node::integer(8, false),
                ),
                (
                    Symbol::new("name"),
                    Node::fixed_length(Expr::bin_op(
                        Expr::variable(Symbol::new("name_string_size")),
                        BinOp::Mul,
                        Expr::constant_int(2),
                    )),
                ),
            ],
        );
    proof {
        // the byte and field sequences are equal element by element, innermost first
        let a = r.deep();
        let b = spec_mft_file_name();
        assert forall|i: int| 0 <= i < 12 implies a.kind->Struct_0[i] == b.kind->Struct_0[i] by {
            if i == 0 {} else if i == 1 {} else if i == 2 {} else if i == 3 {} else if i == 4 {} else if i == 5 {} else if i == 6 {} else if i == 7 {} else if i == 8 {} else if i == 9 {} else if i == 10 {} else if i == 11 {}
        }
        assert(a.kind->Struct_0 =~= b.kind->Struct_0);
    }
    r
}

/// The description that `tmp_mft_index_root` builds, as plain values.
pub open spec fn spec_mft_index_root() -> SNode {
    SNode::structure(
        seq![
            (
                "attribute_type"@,
                SNode::integer(32, false),
            ),
            (
                "collation_type"@,
                SNode::integer(32, false),
            ),
            (
                "index_entry_size"@,
                SNode::integer(32, false),
            ),
            (
                "index_entry_number_of_cluster_blocks"@,
                SNode::integer(32, false),
            ),
            (
                "index_node_header"@,
                SNode::named("mft_index_node_header"@),
            ),
            (
                "unused"@,
                SNode::fixed_length(SExpr::bin_op(
                    SExpr::field_access(
                        SExpr::parent(),
                        "data_size"@,
                    ),
                    BinOp::Sub,
                    SExpr::constant_int(32),
                )),
            ),
        ],
    )
}

/// Describes the index root attribute of an NTFS master file table entry.
pub fn tmp_mft_index_root() -> (r: Node)
    ensures
        r.wf(),
        r.deep() == spec_mft_index_root(),
{
    let r =
        Node::structure(
            vec![
                (
                    Symbol::new("attribute_type"),
                    Node::integer(32, false),
                ),
                (
                    Symbol::new("collation_type"),
                    Node::integer(32, false),
                ),
                (
                    Symbol::new("index_entry_size"),
                    Node::integer(32, false),
                ),
                (
                    Symbol::new("index_entry_number_of_cluster_blocks"),
                    Node::integer(32, false),
                ),
                (
                    Symbol::new("index_node_header"),
                    Node::named(Symbol::new("mft_index_node_header")),
                ),
                (
                    Symbol::new("unused"),
                    Node::fixed_length(Expr::bin_op(
                        Expr::field_access(
                            Expr::parent(),
                            Symbol::new("data_size"),
                        ),
                        BinOp::Sub,
                        Expr::constant_int(32),
                    )),
                ),
            ],
        );
    proof {
        // the byte and field sequences are equal element by element, innermost first
        let a = r.deep();
        let b = spec_mft_index_root();
        assert forall|i: int| 0 <= i < 6 implies a.kind->Struct_0[i] == b.kind->Struct_0[i] by {
            if i == 0 {} else if i == 1 {} else if i == 2 {} else if i == 3 {} else if i == 4 {} else if i == 5 {}
        }
        assert(a.kind->Struct_0 =~= b.kind->Struct_0);
    }
    r
}

/// The description that `tmp_mft_index_node_header` builds, as plain values.
pub open spec fn spec_mft_index_node_header() -> SNode {
    SNode::structure(
        seq![
            (
                "index_values_offset"@,
                SNode::integer(32, false),
            ),
            (
                "index_node_size"@,
                SNode::integer(32, false),
            ),
            (
                "allocated_index_node_size"@,
                SNode::integer(32, false),
            ),
            (
                "index_node_flags"@,
                SNode::integer(32, false),
            ),
        ],
    )
}

/// Describes the header of an NTFS index node.
pub fn tmp_mft_index_node_header() -> (r: Node)
    ensures
        r.wf(),
        r.deep() == spec_mft_index_node_header(),
{
    let r =
        Node::structure(
            vec![
                (
                    Symbol::new("index_values_offset"),
                    Node::integer(32, false),
                ),
                (
                    Symbol::new("index_node_size"),
                    Node::integer(32, false),
                ),
                (
                    Symbol::new("allocated_index_node_size"),
                    Node::integer(32, false),
                ),
                (
                    Symbol::new("index_node_flags"),
                    Node::integer(32, false),
                ),
            ],
        );
    proof {
        // the byte and field sequences are equal element by element, innermost first
        let a = r.deep();
        let b = spec_mft_index_node_header();
        assert forall|i: int| 0 <= i < 4 implies a.kind->Struct_0[i] == b.kind->Struct_0[i] by {
            if i == 0 {} else if i == 1 {} else if i == 2 {} else if i == 3 {}
        }
        assert(a.kind->Struct_0 =~= b.kind->Struct_0);
    }
    r
}

/// The description that `tmp_mft_index_entry` builds, as plain values.
pub open spec fn spec_mft_index_entry() -> SNode {
    SNode::structure(
        seq![
            (
                "signature"@,
                SNode::fixed_bytes(SExpr::constant_bytes(seq![0x49, 0x4e, 0x44, 0x58])),
            ),
            (
                "fixup_values_offset"@,
                SNode::integer(16, false),
            ),
            (
                "num_of_fixup_values"@,
                SNode::integer(16, false),
            ),
            (
                "metadata_transaction_journal_sequence_number"@,
                SNode::integer(64, false),
            ),
            (
                "virtual_cluster_number_of_index_entry"@,
                SNode::integer(64, false),
            ),
            (
                "index_node_header"@,
                SNode::named("mft_index_node_header"@),
            ),
            (
                "values"@,
                SNode::repeat_while(
                    SNode::structure(
                        seq![
                            (
                                "file_reference"@,
                                SNode::integer(64, false),
                            ),
                            (
                                "index_value_size"@,
                                SNode::integer(16, false),
                            ),
                            (
                                "index_key_data_size"@,
                                SNode::integer(16, false),
                            ),
                            (
                                "index_value_flags"@,
                                SNode::integer(32, false),
                            ),
                            (
                                "index_key_data"@,
                                SNode::parse_if(
                                    SExpr::bin_op(
                                        SExpr::variable("index_key_data_size"@),
                                        BinOp::Geq,
                                        SExpr::constant_int(66),
                                    ),
                                    SNode::named("mft_attr_filename"@),
                                    SNode::fixed_length(SExpr::variable("index_key_data_size"@)),
                                ),
                            ),
                            (
                                "alignment_padding"@,
                                SNode::fixed_length(SExpr::if_else(
                                    SExpr::bin_op(
                                        SExpr::constant_int(0),
                                        BinOp::Eq,
                                        SExpr::bin_op(
                                            SExpr::offset(),
                                            BinOp::Mod,
                                            SExpr::constant_int(8),
                                        ),
                                    ),
                                    SExpr::constant_int(0),
                                    SExpr::bin_op(
                                        SExpr::constant_int(8),
                                        BinOp::Sub,
                                        SExpr::bin_op(
                                            SExpr::offset(),
                                            BinOp::Mod,
                                            SExpr::constant_int(8),
                                        ),
                                    ),
                                )),
                            ),
                        ],
                    ),
                    SExpr::bin_op(
                        SExpr::bin_op(
                            SExpr::field_access(
                                SExpr::last(),
                                "index_value_flags"@,
                            ),
                            BinOp::And,
                            SExpr::constant_int(2),
                        ),
                        BinOp::Neq,
                        SExpr::constant_int(2),
                    ),
                ).at(SExpr::bin_op(
                    SExpr::field_access(
                        SExpr::variable("index_node_header"@),
                        "index_values_offset"@,
                    ),
                    BinOp::Add,
                    SExpr::constant_int(24),
                )),
            ),
        ],
    )
}

/// Describes an entry of an NTFS index.
pub fn tmp_mft_index_entry() -> (r: Node)
    ensures
        r.wf(),
        r.deep() == spec_mft_index_entry(),
{
    let r =
        Node::structure(
            vec![
                (
                    Symbol::new("signature"),
                    Node::fixed_bytes(Expr::constant_bytes(vec![0x49, 0x4e, 0x44, 0x58])),
                ),
                (
                    Symbol::new("fixup_values_offset"),
                    Node::integer(16, false),
                ),
                (
                    Symbol::new("num_of_fixup_values"),
                    Node::integer(16, false),
                ),
                (
                    Symbol::new("metadata_transaction_journal_sequence_number"),
                    Node::integer(64, false),
                ),
                (
                    Symbol::new("virtual_cluster_number_of_index_entry"),
                    Node::integer(64, false),
                ),
                (
                    Symbol::new("index_node_header"),
                    Node::named(Symbol::new("mft_index_node_header")),
                ),
                (
                    Symbol::new("values"),
                    Node::repeat_while(
                        Node::structure(
                            vec![
                                (
                                    Symbol::new("file_reference"),
                                    Node::integer(64, false),
                                ),
                                (
                                    Symbol::new("index_value_size"),
                                    Node::integer(16, false),
                                ),
                                (
                                    Symbol::new("index_key_data_size"),
                                    Node::integer(16, false),
                                ),
                                (
                                    Symbol::new("index_value_flags"),
                                    Node::integer(32, false),
                                ),
                                (
                                    Symbol::new("index_key_data"),
                                    Node::parse_if(
                                        Expr::bin_op(
                                            Expr::variable(Symbol::new("index_key_data_size")),
                                            BinOp::Geq,
                                            Expr::constant_int(66),
                                        ),
                                        Node::named(Symbol::new("mft_attr_filename")),
                                        Node::fixed_length(Expr::variable(Symbol::new("index_key_data_size"))),
                                    ),
                                ),
                                (
                                    Symbol::new("alignment_padding"),
                                    Node::fixed_length(Expr::if_else(
                                        Expr::bin_op(
                                            Expr::constant_int(0),
                                            BinOp::Eq,
                                            Expr::bin_op(
                                                Expr::offset(),
                                                BinOp::Mod,
                                                Expr::constant_int(8),
                                            ),
                                        ),
                                        Expr::constant_int(0),
                                        Expr::bin_op(
                                            Expr::constant_int(8),
                                            BinOp::Sub,
                                            Expr::bin_op(
                                                Expr::offset(),
                                                BinOp::Mod,
                                                Expr::constant_int(8),
                                            ),
                                        ),
                                    )),
                                ),
                            ],
                        ),
                        Expr::bin_op(
                            Expr::bin_op(
                                Expr::field_access(
                                    Expr::last(),
                                    Symbol::new("index_value_flags"),
                                ),
                                BinOp::And,
                                Expr::constant_int(2),
                            ),
                            BinOp::Neq,
                            Expr::constant_int(2),
                        ),
                    ).at(Expr::bin_op(
                        Expr::field_access(
                            Expr::variable(Symbol::new("index_node_header")),
                            Symbol::new("index_values_offset"),
                        ),
                        BinOp::Add,
                        Expr::constant_int(24),
                    )),
                ),
            ],
        );
    proof {
        // the byte and field sequences are equal element by element, innermost first
        let a = r.deep();
        let b = spec_mft_index_entry();
        assert(a.kind->Struct_0[0].1.kind->FixedBytes_0->ConstantBytes_0 =~= b.kind->Struct_0[0].1.kind->FixedBytes_0->ConstantBytes_0);
        assert(a.kind->Struct_0[0].1.kind->FixedBytes_0 == b.kind->Struct_0[0].1.kind->FixedBytes_0);
        assert(a.kind->Struct_0[0].1 == b.kind->Struct_0[0].1);
        assert forall|i: int| 0 <= i < 6 implies a.kind->Struct_0[6].1.kind->RepeatWhile_0.kind->Struct_0[i] == b.kind->Struct_0[6].1.kind->RepeatWhile_0.kind->Struct_0[i] by {
            if i == 0 {} else if i == 1 {} else if i == 2 {} else if i == 3 {} else if i == 4 {} else if i == 5 {}
        }
        assert(a.kind->Struct_0[6].1.kind->RepeatWhile_0.kind->Struct_0 =~= b.kind->Struct_0[6].1.kind->RepeatWhile_0.kind->Struct_0);
        assert(a.kind->Struct_0[6].1.kind->RepeatWhile_0 == b.kind->Struct_0[6].1.kind->RepeatWhile_0);
        assert(a.kind->Struct_0[6].1 == b.kind->Struct_0[6].1);
        assert forall|i: int| 0 <= i < 7 implies a.kind->Struct_0[i] == b.kind->Struct_0[i] by {
            if i == 0 {} else if i == 1 {} else if i == 2 {} else if i == 3 {} else if i == 4 {} else if i == 5 {} else if i == 6 {}
        }
        assert(a.kind->Struct_0 =~= b.kind->Struct_0);
    }
    r
}

/// The description that `tmp_ntfs_header` builds, as plain values.
pub open spec fn spec_ntfs_header() -> SNode {
    SNode::structure(
        seq![
            (
                "boot_entry_point"@,
                SNode::fixed_length(SExpr::constant_int(3)),
            ),
            (
                "file_system_signature"@,
                SNode::fixed_bytes(SExpr::constant_bytes(seq![0x4e, 0x54, 0x46, 0x53, 0x20, 0x20, 0x20, 0x20])),
            ),
            (
                "bytes_per_sector"@,
                SNode::integer(16, false),
            ),
            (
                "sectors_per_cluster_block"@,
                SNode::integer(8, false),
            ),
            (
                "number_of_sectors"@,
                SNode::integer(64, false).at(SExpr::constant_int(40)),
            ),
            (
                "mft_cluster_block_number"@,
                SNode::integer(64, false),
            ),
            (
                "mft_mirr_cluster_block_number"@,
                SNode::integer(64, false),
            ),
            (
                "mft_entry_size"@,
                SNode::integer(8, false),
            ),
            (
                "index_entry_size"@,
                SNode::integer(8, false).at(SExpr::constant_int(68)),
            ),
            (
                "volume_serial_number"@,
                SNode::fixed_length(SExpr::constant_int(8)).at(SExpr::constant_int(72)),
            ),
            (
                "sector_signature"@,
                SNode::fixed_bytes(SExpr::constant_bytes(seq![0x55, 0xaa])).at(SExpr::constant_int(510)),
            ),
        ],
    )
}

/// Describes the boot sector header of an NTFS volume.
pub fn tmp_ntfs_header() -> (r: Node)
    ensures
        r.wf(),
        r.deep() == spec_ntfs_header(),
{
    let r =
        Node::structure(
            vec![
                (
                    Symbol::new("boot_entry_point"),
                    Node::fixed_length(Expr::constant_int(3)),
                ),
                (
                    Symbol::new("file_system_signature"),
                    Node::fixed_bytes(Expr::constant_bytes(vec![0x4e, 0x54, 0x46, 0x53, 0x20, 0x20, 0x20, 0x20])),
                ),
                (
                    Symbol::new("bytes_per_sector"),
                    Node::integer(16, false),
                ),
                (
                    Symbol::new("sectors_per_cluster_block"),
                    Node::integer(8, false),
                ),
                (
                    Symbol::new("number_of_sectors"),
                    Node::integer(64, false).at(Expr::constant_int(40)),
                ),
                (
                    Symbol::new("mft_cluster_block_number"),
                    Node::integer(64, false),
                ),
                (
                    Symbol::new("mft_mirr_cluster_block_number"),
                    Node::integer(64, false),
                ),
                (
                    Symbol::new("mft_entry_size"),
                    Node::integer(8, false),
                ),
                (
                    Symbol::new("index_entry_size"),
                    Node::integer(8, false).at(Expr::constant_int(68)),
                ),
                (
                    Symbol::new("volume_serial_number"),
                    Node::fixed_length(Expr::constant_int(8)).at(Expr::constant_int(72)),
                ),
                (
                    Symbol::new("sector_signature"),
                    Node::fixed_bytes(Expr::constant_bytes(vec![0x55, 0xaa])).at(Expr::constant_int(510)),
                ),
            ],
        );
    proof {
        // the byte and field sequences are equal element by element, innermost first
        let a = r.deep();
        let b = spec_ntfs_header();
        assert(a.kind->Struct_0[1].1.kind->FixedBytes_0->ConstantBytes_0 =~= b.kind->Struct_0[1].1.kind->FixedBytes_0->ConstantBytes_0);
        assert(a.kind->Struct_0[1].1.kind->FixedBytes_0 == b.kind->Struct_0[1].1.kind->FixedBytes_0);
        assert(a.kind->Struct_0[1].1 == b.kind->Struct_0[1].1);
        assert(a.kind->Struct_0[10].1.kind->FixedBytes_0->ConstantBytes_0 =~= b.kind->Struct_0[10].1.kind->FixedBytes_0->ConstantBytes_0);
        assert(a.kind->Struct_0[10].1.kind->FixedBytes_0 == b.kind->Struct_0[10].1.kind->FixedBytes_0);
        assert(a.kind->Struct_0[10].1 == b.kind->Struct_0[10].1);
        assert forall|i: int| 0 <= i < 11 implies a.kind->Struct_0[i] == b.kind->Struct_0[i] by {
            if i == 0 {} else if i == 1 {} else if i == 2 {} else if i == 3 {} else if i == 4 {} else if i == 5 {} else if i == 6 {} else if i == 7 {} else if i == 8 {} else if i == 9 {} else if i == 10 {}
        }
        assert(a.kind->Struct_0 =~= b.kind->Struct_0);
    }
    r
}

/// The description that `tmp_bitlocker_header` builds, as plain values.
pub open spec fn spec_bitlocker_header() -> SNode {
    SNode::structure(
        seq![
            (
                "boot_entry_point"@,
                SNode::fixed_length(SExpr::constant_int(3)),
            ),
            (
                "file_system_signature"@,
                SNode::fixed_bytes(SExpr::constant_bytes(seq![0x2d, 0x46, 0x56, 0x45, 0x2d, 0x46, 0x53, 0x2d])),
            ),
            (
                "bytes_per_sector"@,
                SNode::integer(16, false),
            ),
            (
                "sectors_per_cluster_block"@,
                SNode::integer(8, false),
            ),
            (
                "number_of_sectors"@,
                SNode::integer(64, false).at(SExpr::constant_int(40)),
            ),
            (
                "mft_cluster_block_number"@,
                SNode::integer(64, false),
            ),
            (
                "mft_mirr_cluster_block_number"@,
                SNode::integer(64, false),
            ),
            (
                "mft_entry_size"@,
                SNode::integer(8, false),
            ),
            (
                "volume_serial_number"@,
                SNode::fixed_length(SExpr::constant_int(16)).at(SExpr::constant_int(160)),
            ),
            (
                "information_offsets"@,
                SNode::repeat_count(
                    SNode::integer(64, false),
                    SExpr::constant_int(3),
                ).at(SExpr::constant_int(176)),
            ),
            (
                "eow_information_offsets"@,
                SNode::repeat_count(
                    SNode::integer(64, false),
                    SExpr::constant_int(2),
                ),
            ),
            (
                "sector_signature"@,
                SNode::fixed_bytes(SExpr::constant_bytes(seq![0x55, 0xaa])).at(SExpr::constant_int(510)),
            ),
        ],
    )
}

/// Describes the volume header of a BitLocker volume.
pub fn tmp_bitlocker_header() -> (r: Node)
    ensures
        r.wf(),
        r.deep() == spec_bitlocker_header(),
{
    let r =
        Node::structure(
            vec![
                (
                    Symbol::new("boot_entry_point"),
                    Node::fixed_length(Expr::constant_int(3)),
                ),
                (
                    Symbol::new("file_system_signature"),
                    Node::fixed_bytes(Expr::constant_bytes(vec![0x2d, 0x46, 0x56, 0x45, 0x2d, 0x46, 0x53, 0x2d])),
                ),
                (
                    Symbol::new("bytes_per_sector"),
                    Node::integer(16, false),
                ),
                (
                    Symbol::new("sectors_per_cluster_block"),
                    Node::integer(8, false),
                ),
                (
                    Symbol::new("number_of_sectors"),
                    Node::integer(64, false).at(Expr::constant_int(40)),
                ),
                (
                    Symbol::new("mft_cluster_block_number"),
                    Node::integer(64, false),
                ),
                (
                    Symbol::new("mft_mirr_cluster_block_number"),
                    Node::integer(64, false),
                ),
                (
                    Symbol::new("mft_entry_size"),
                    Node::integer(8, false),
                ),
                (
                    Symbol::new("volume_serial_number"),
                    Node::fixed_length(Expr::constant_int(16)).at(Expr::constant_int(160)),
                ),
                (
                    Symbol::new("information_offsets"),
                    Node::repeat_count(
                        Node::integer(64, false),
                        Expr::constant_int(3),
                    ).at(Expr::constant_int(176)),
                ),
                (
                    Symbol::new("eow_information_offsets"),
                    Node::repeat_count(
                        Node::integer(64, false),
                        Expr::constant_int(2),
                    ),
                ),
                (
                    Symbol::new("sector_signature"),
                    Node::fixed_bytes(Expr::constant_bytes(vec![0x55, 0xaa])).at(Expr::constant_int(510)),
                ),
            ],
        );
    proof {
        // the byte and field sequences are equal element by element, innermost first
        let a = r.deep();
        let b = spec_bitlocker_header();
        assert(a.kind->Struct_0[1].1.kind->FixedBytes_0->ConstantBytes_0 =~= b.kind->Struct_0[1].1.kind->FixedBytes_0->ConstantBytes_0);
        assert(a.kind->Struct_0[1].1.kind->FixedBytes_0 == b.kind->Struct_0[1].1.kind->FixedBytes_0);
        assert(a.kind->Struct_0[1].1 == b.kind->Struct_0[1].1);
        assert(a.kind->Struct_0[11].1.kind->FixedBytes_0->ConstantBytes_0 =~= b.kind->Struct_0[11].1.kind->FixedBytes_0->ConstantBytes_0);
        assert(a.kind->Struct_0[11].1.kind->FixedBytes_0 == b.kind->Struct_0[11].1.kind->FixedBytes_0);
        assert(a.kind->Struct_0[11].1 == b.kind->Struct_0[11].1);
        assert forall|i: int| 0 <= i < 12 implies a.kind->Struct_0[i] == b.kind->Struct_0[i] by {
            if i == 0 {} else if i == 1 {} else if i == 2 {} else if i == 3 {} else if i == 4 {} else if i == 5 {} else if i == 6 {} else if i == 7 {} else if i == 8 {} else if i == 9 {} else if i == 10 {} else if i == 11 {}
        }
        assert(a.kind->Struct_0 =~= b.kind->Struct_0);
    }
    r
}

/// The description that `tmp_bitlocker_information` builds, as plain values.
pub open spec fn spec_bitlocker_information() -> SNode {
    SNode::structure(
        seq![
            (
                "signature"@,
                SNode::fixed_bytes(SExpr::constant_bytes(seq![0x2d, 0x46, 0x56, 0x45, 0x2d, 0x46, 0x53, 0x2d])),
            ),
            (
                "size"@,
                SNode::integer(16, false),
            ),
            (
                "version"@,
                SNode::integer(16, false),
            ),
            (
                "current_state"@,
                SNode::integer(16, false),
            ),
            (
                "next_state"@,
                SNode::integer(16, false),
            ),
            (
                "encrypted_volume_size"@,
                SNode::integer(64, false),
            ),
            (
                "convert_size"@,
                SNode::integer(32, false),
            ),
            (
                "num_of_backup_sectors"@,
                SNode::integer(32, false),
            ),
            (
                "information_offsets"@,
                SNode::repeat_count(
                    SNode::integer(64, false),
                    SExpr::constant_int(3),
                ),
            ),
            (
                "boot_sector_backup"@,
                SNode::integer(64, false),
            ),
            (
                "dataset"@,
                SNode::structure(
                    seq![
                        (
                            "size"@,
                            SNode::integer(32, false),
                        ),
                        (
                            "unknown1"@,
                            SNode::integer(32, false),
                        ),
                        (
                            "header_size"@,
                            SNode::integer(32, false),
                        ),
                        (
                            "copy_size"@,
                            SNode::integer(32, false),
                        ),
                        (
                            "guid"@,
                            SNode::fixed_length(SExpr::constant_int(16)),
                        ),
                        (
                            "next_counter"@,
                            SNode::integer(32, false),
                        ),
                        (
                            "algorithm"@,
                            SNode::integer(16, false),
                        ),
                        (
                            "trash"@,
                            SNode::integer(16, false),
                        ),
                        (
                            "timestamp"@,
                            SNode::integer(64, false),
                        ),
                    ],
                ),
            ),
            (
                "datums"@,
                SNode::repeat_while(
                    SNode::structure(
                        seq![
                            (
                                "size"@,
                                SNode::integer(16, false),
                            ),
                            (
                                "entry_type"@,
                                SNode::integer(16, false),
                            ),
                            (
                                "value_type"@,
                                SNode::integer(16, false),
                            ),
                            (
                                "error_status"@,
                                SNode::integer(16, false),
                            ),
                            (
                                "content"@,
                                SNode::switch(
                                    SExpr::variable("value_type"@),
                                    seq![
                                    ],
                                    SNode::fixed_length(SExpr::bin_op(
                                        SExpr::variable("size"@),
                                        BinOp::Sub,
                                        SExpr::constant_int(8),
                                    )),
                                ),
                            ),
                        ],
                    ),
                    SExpr::bin_op(
                        SExpr::offset(),
                        BinOp::Lt,
                        SExpr::bin_op(
                            SExpr::field_access(
                                SExpr::variable("dataset"@),
                                "size"@,
                            ),
                            BinOp::Add,
                            SExpr::constant_int(64),
                        ),
                    ),
                ),
            ),
        ],
    )
}

/// Describes the information block of a BitLocker volume with its metadata entries.
pub fn tmp_bitlocker_information() -> (r: Node)
    ensures
        r.wf(),
        r.deep() == spec_bitlocker_information(),
{
    let r =
        Node::structure(
            vec![
                (
                    Symbol::new("signature"),
                    Node::fixed_bytes(Expr::constant_bytes(vec![0x2d, 0x46, 0x56, 0x45, 0x2d, 0x46, 0x53, 0x2d])),
                ),
                (
                    Symbol::new("size"),
                    Node::integer(16, false),
                ),
                (
                    Symbol::new("version"),
                    Node::integer(16, false),
                ),
                (
                    Symbol::new("current_state"),
                    Node::integer(16, false),
                ),
                (
                    Symbol::new("next_state"),
                    Node::integer(16, false),
                ),
                (
                    Symbol::new("encrypted_volume_size"),
                    Node::integer(64, false),
                ),
                (
                    Symbol::new("convert_size"),
                    Node::integer(32, false),
                ),
                (
                    Symbol::new("num_of_backup_sectors"),
                    Node::integer(32, false),
                ),
                (
                    Symbol::new("information_offsets"),
                    Node::repeat_count(
                        Node::integer(64, false),
                        Expr::constant_int(3),
                    ),
                ),
                (
                    Symbol::new("boot_sector_backup"),
                    Node::integer(64, false),
                ),
                (
                    Symbol::new("dataset"),
                    Node::structure(
                        vec![
                            (
                                Symbol::new("size"),
                                Node::integer(32, false),
                            ),
                            (
                                Symbol::new("unknown1"),
                                Node::integer(32, false),
                            ),
                            (
                                Symbol::new("header_size"),
                                Node::integer(32, false),
                            ),
                            (
                                Symbol::new("copy_size"),
                                Node::integer(32, false),
                            ),
                            (
                                Symbol::new("guid"),
                                Node::fixed_length(Expr::constant_int(16)),
                            ),
                            (
                                Symbol::new("next_counter"),
                                Node::integer(32, false),
                            ),
                            (
                                Symbol::new("algorithm"),
                                Node::integer(16, false),
                            ),
                            (
                                Symbol::new("trash"),
                                Node::integer(16, false),
                            ),
                            (
                                Symbol::new("timestamp"),
                                Node::integer(64, false),
                            ),
                        ],
                    ),
                ),
                (
                    Symbol::new("datums"),
                    Node::repeat_while(
                        Node::structure(
                            vec![
                                (
                                    Symbol::new("size"),
                                    Node::integer(16, false),
                                ),
                                (
                                    Symbol::new("entry_type"),
                                    Node::integer(16, false),
                                ),
                                (
                                    Symbol::new("value_type"),
                                    Node::integer(16, false),
                                ),
                                (
                                    Symbol::new("error_status"),
                                    Node::integer(16, false),
                                ),
                                (
                                    Symbol::new("content"),
                                    Node::switch(
                                        Expr::variable(Symbol::new("value_type")),
                                        vec![
                                        ],
                                        Node::fixed_length(Expr::bin_op(
                                            Expr::variable(Symbol::new("size")),
                                            BinOp::Sub,
                                            Expr::constant_int(8),
                                        )),
                                    ),
                                ),
                            ],
                        ),
                        Expr::bin_op(
                            Expr::offset(),
                            BinOp::Lt,
                            Expr::bin_op(
                                Expr::field_access(
                                    Expr::variable(Symbol::new("dataset")),
                                    Symbol::new("size"),
                                ),
                                BinOp::Add,
                                Expr::constant_int(64),
                            ),
                        ),
                    ),
                ),
            ],
        );
    proof {
        // the byte and field sequences are equal element by element, innermost first
        let a = r.deep();
        let b = spec_bitlocker_information();
        assert(a.kind->Struct_0[0].1.kind->FixedBytes_0->ConstantBytes_0 =~= b.kind->Struct_0[0].1.kind->FixedBytes_0->ConstantBytes_0);
        assert(a.kind->Struct_0[0].1.kind->FixedBytes_0 == b.kind->Struct_0[0].1.kind->FixedBytes_0);
        assert(a.kind->Struct_0[0].1 == b.kind->Struct_0[0].1);
        assert forall|i: int| 0 <= i < 9 implies a.kind->Struct_0[10].1.kind->Struct_0[i] == b.kind->Struct_0[10].1.kind->Struct_0[i] by {
            if i == 0 {} else if i == 1 {} else if i == 2 {} else if i == 3 {} else if i == 4 {} else if i == 5 {} else if i == 6 {} else if i == 7 {} else if i == 8 {}
        }
        assert(a.kind->Struct_0[10].1.kind->Struct_0 =~= b.kind->Struct_0[10].1.kind->Struct_0);
        assert(a.kind->Struct_0[10].1 == b.kind->Struct_0[10].1);
        assert forall|i: int| 0 <= i < 0 implies a.kind->Struct_0[11].1.kind->RepeatWhile_0.kind->Struct_0[4].1.kind->Switch_1[i] == b.kind->Struct_0[11].1.kind->RepeatWhile_0.kind->Struct_0[4].1.kind->Switch_1[i] by {
            
        }
        assert(a.kind->Struct_0[11].1.kind->RepeatWhile_0.kind->Struct_0[4].1.kind->Switch_1 =~= b.kind->Struct_0[11].1.kind->RepeatWhile_0.kind->Struct_0[4].1.kind->Switch_1);
        assert(a.kind->Struct_0[11].1.kind->RepeatWhile_0.kind->Struct_0[4].1 == b.kind->Struct_0[11].1.kind->RepeatWhile_0.kind->Struct_0[4].1);
        assert forall|i: int| 0 <= i < 5 implies a.kind->Struct_0[11].1.kind->RepeatWhile_0.kind->Struct_0[i] == b.kind->Struct_0[11].1.kind->RepeatWhile_0.kind->Struct_0[i] by {
            if i == 0 {} else if i == 1 {} else if i == 2 {} else if i == 3 {} else if i == 4 {}
        }
        assert(a.kind->Struct_0[11].1.kind->RepeatWhile_0.kind->Struct_0 =~= b.kind->Struct_0[11].1.kind->RepeatWhile_0.kind->Struct_0);
        assert(a.kind->Struct_0[11].1.kind->RepeatWhile_0 == b.kind->Struct_0[11].1.kind->RepeatWhile_0);
        assert(a.kind->Struct_0[11].1 == b.kind->Struct_0[11].1);
        assert forall|i: int| 0 <= i < 12 implies a.kind->Struct_0[i] == b.kind->Struct_0[i] by {
            if i == 0 {} else if i == 1 {} else if i == 2 {} else if i == 3 {} else if i == 4 {} else if i == 5 {} else if i == 6 {} else if i == 7 {} else if i == 8 {} else if i == 9 {} else if i == 10 {} else if i == 11 {}
        }
        assert(a.kind->Struct_0 =~= b.kind->Struct_0);
    }
    r
}

/// The description that `tmp_vhdx_region_table` builds, as plain values.
pub open spec fn spec_vhdx_region_table() -> SNode {
    SNode::structure(
        seq![
            (
                "signature"@,
                SNode::fixed_bytes(SExpr::constant_bytes(seq![0x72, 0x65, 0x67, 0x69])),
            ),
            (
                "checksum"@,
                SNode::integer(32, false),
            ),
            (
                "number_of_entries"@,
                SNode::integer(32, false),
            ),
            (
                "reserved"@,
                SNode::integer(32, false),
            ),
            (
                "entries"@,
                SNode::repeat_count(
                    SNode::structure(
                        seq![
                            (
                                "region_type_identifier"@,
                                SNode::fixed_length(SExpr::constant_int(16)),
                            ),
                            (
                                "region_data_offset"@,
                                SNode::integer(64, false),
                            ),
                            (
                                "region_data_size"@,
                                SNode::integer(32, false),
                            ),
                            (
                                "is_required_flag"@,
                                SNode::integer(32, false),
                            ),
                        ],
                    ),
                    SExpr::variable("number_of_entries"@),
                ),
            ),
        ],
    )
}

/// Describes the region table of a VHDX disk image.
pub fn tmp_vhdx_region_table() -> (r: Node)
    ensures
        r.wf(),
        r.deep() == spec_vhdx_region_table(),
{
    let r =
        Node::structure(
            vec![
                (
                    Symbol::new("signature"),
                    Node::fixed_bytes(Expr::constant_bytes(vec![0x72, 0x65, 0x67, 0x69])),
                ),
                (
                    Symbol::new("checksum"),
                    Node::integer(32, false),
                ),
                (
                    Symbol::new("number_of_entries"),
                    Node::integer(32, false),
                ),
                (
                    Symbol::new("reserved"),
                    Node::integer(32, false),
                ),
                (
                    Symbol::new("entries"),
                    Node::repeat_count(
                        Node::structure(
                            vec![
                                (
                                    Symbol::new("region_type_identifier"),
                                    Node::fixed_length(Expr::constant_int(16)),
                                ),
                                (
                                    Symbol::new("region_data_offset"),
                                    Node::integer(64, false),
                                ),
                                (
                                    Symbol::new("region_data_size"),
                                    Node::integer(32, false),
                                ),
                                (
                                    Symbol::new("is_required_flag"),
                                    Node::integer(32, false),
                                ),
                            ],
                        ),
                        Expr::variable(Symbol::new("number_of_entries")),
                    ),
                ),
            ],
        );
    proof {
        // the byte and field sequences are equal element by element, innermost first
        let a = r.deep();
        let b = spec_vhdx_region_table();
        assert(a.kind->Struct_0[0].1.kind->FixedBytes_0->ConstantBytes_0 =~= b.kind->Struct_0[0].1.kind->FixedBytes_0->ConstantBytes_0);
        assert(a.kind->Struct_0[0].1.kind->FixedBytes_0 == b.kind->Struct_0[0].1.kind->FixedBytes_0);
        assert(a.kind->Struct_0[0].1 == b.kind->Struct_0[0].1);
        assert forall|i: int| 0 <= i < 4 implies a.kind->Struct_0[4].1.kind->RepeatCount_0.kind->Struct_0[i] == b.kind->Struct_0[4].1.kind->RepeatCount_0.kind->Struct_0[i] by {
            if i == 0 {} else if i == 1 {} else if i == 2 {} else if i == 3 {}
        }
        assert(a.kind->Struct_0[4].1.kind->RepeatCount_0.kind->Struct_0 =~= b.kind->Struct_0[4].1.kind->RepeatCount_0.kind->Struct_0);
        assert(a.kind->Struct_0[4].1.kind->RepeatCount_0 == b.kind->Struct_0[4].1.kind->RepeatCount_0);
        assert(a.kind->Struct_0[4].1 == b.kind->Struct_0[4].1);
        assert forall|i: int| 0 <= i < 5 implies a.kind->Struct_0[i] == b.kind->Struct_0[i] by {
            if i == 0 {} else if i == 1 {} else if i == 2 {} else if i == 3 {} else if i == 4 {}
        }
        assert(a.kind->Struct_0 =~= b.kind->Struct_0);
    }
    r
}

/// The description that `tmp_vhdx_metadata_table` builds, as plain values.
pub open spec fn spec_vhdx_metadata_table() -> SNode {
    SNode::structure(
        seq![
            (
                "signature"@,
                SNode::fixed_bytes(SExpr::constant_bytes(seq![0x6d, 0x65, 0x74, 0x61, 0x64, 0x61, 0x74, 0x61])),
            ),
            (
                "unknown"@,
                SNode::integer(16, false),
            ),
            (
                "number_of_entries"@,
                SNode::integer(16, false),
            ),
            (
                "unknown2"@,
                SNode::fixed_length(SExpr::constant_int(20)),
            ),
            (
                "entries"@,
                SNode::repeat_count(
                    SNode::structure(
                        seq![
                            (
                                "metadata_item_identifier"@,
                                SNode::fixed_length(SExpr::constant_int(16)),
                            ),
                            (
                                "metadata_item_offset"@,
                                SNode::integer(32, false),
                            ),
                            (
                                "metadata_item_size"@,
                                SNode::integer(32, false),
                            ),
                            (
                                "unknown"@,
                                SNode::integer(64, false),
                            ),
                        ],
                    ),
                    SExpr::variable("number_of_entries"@),
                ),
            ),
        ],
    )
}

/// Describes the metadata table of a VHDX disk image.
pub fn tmp_vhdx_metadata_table() -> (r: Node)
    ensures
        r.wf(),
        r.deep() == spec_vhdx_metadata_table(),
{
    let r =
        Node::structure(
            vec![
                (
                    Symbol::new("signature"),
                    Node::fixed_bytes(Expr::constant_bytes(vec![0x6d, 0x65, 0x74, 0x61, 0x64, 0x61, 0x74, 0x61])),
                ),
                (
                    Symbol::new("unknown"),
                    Node::integer(16, false),
                ),
                (
                    Symbol::new("number_of_entries"),
                    Node::integer(16, false),
                ),
                (
                    Symbol::new("unknown2"),
                    Node::fixed_length(Expr::constant_int(20)),
                ),
                (
                    Symbol::new("entries"),
                    Node::repeat_count(
                        Node::structure(
                            vec![
                                (
                                    Symbol::new("metadata_item_identifier"),
                                    Node::fixed_length(Expr::constant_int(16)),
                                ),
                                (
                                    Symbol::new("metadata_item_offset"),
                                    Node::integer(32, false),
                                ),
                                (
                                    Symbol::new("metadata_item_size"),
                                    Node::integer(32, false),
                                ),
                                (
                                    Symbol::new("unknown"),
                                    Node::integer(64, false),
                                ),
                            ],
                        ),
                        Expr::variable(Symbol::new("number_of_entries")),
                    ),
                ),
            ],
        );
    proof {
        // the byte and field sequences are equal element by element, innermost first
        let a = r.deep();
        let b = spec_vhdx_metadata_table();
        assert(a.kind->Struct_0[0].1.kind->FixedBytes_0->ConstantBytes_0 =~= b.kind->Struct_0[0].1.kind->FixedBytes_0->ConstantBytes_0);
        assert(a.kind->Struct_0[0].1.kind->FixedBytes_0 == b.kind->Struct_0[0].1.kind->FixedBytes_0);
        assert(a.kind->Struct_0[0].1 == b.kind->Struct_0[0].1);
        assert forall|i: int| 0 <= i < 4 implies a.kind->Struct_0[4].1.kind->RepeatCount_0.kind->Struct_0[i] == b.kind->Struct_0[4].1.kind->RepeatCount_0.kind->Struct_0[i] by {
            if i == 0 {} else if i == 1 {} else if i == 2 {} else if i == 3 {}
        }
        assert(a.kind->Struct_0[4].1.kind->RepeatCount_0.kind->Struct_0 =~= b.kind->Struct_0[4].1.kind->RepeatCount_0.kind->Struct_0);
        assert(a.kind->Struct_0[4].1.kind->RepeatCount_0 == b.kind->Struct_0[4].1.kind->RepeatCount_0);
        assert(a.kind->Struct_0[4].1 == b.kind->Struct_0[4].1);
        assert forall|i: int| 0 <= i < 5 implies a.kind->Struct_0[i] == b.kind->Struct_0[i] by {
            if i == 0 {} else if i == 1 {} else if i == 2 {} else if i == 3 {} else if i == 4 {}
        }
        assert(a.kind->Struct_0 =~= b.kind->Struct_0);
    }
    r
}

/// The description that `tmp_vmdk_header` builds, as plain values.
pub open spec fn spec_vmdk_header() -> SNode {
    SNode::structure(
        seq![
            (
                "signature"@,
                SNode::fixed_bytes(SExpr::constant_bytes(seq![0x4b, 0x44, 0x4d, 0x56])),
            ),
            (
                "version"@,
                SNode::integer(32, false),
            ),
            (
                "flags"@,
                SNode::integer(32, false),
            ),
            (
                "maximum_data_number_of_sectors"@,
                SNode::integer(64, false),
            ),
            (
                "grain_number_of_sectors"@,
                SNode::integer(64, false),
            ),
            (
                "descriptor_sector_number"@,
                SNode::integer(64, false),
            ),
            (
                "descriptor_number_of_sectors"@,
                SNode::integer(64, false),
            ),
            (
                "number_of_grains_table_entries"@,
                SNode::integer(32, false),
            ),
            (
                "secondary_grain_directory_sector_number"@,
                SNode::integer(64, false),
            ),
            (
                "grain_directory_sector_number"@,
                SNode::integer(64, false),
            ),
            (
                "metadata_number_of_sectors"@,
                SNode::integer(64, false),
            ),
            (
                "is_dirty"@,
                SNode::integer(8, false),
            ),
            (
                "eol1"@,
                SNode::fixed_bytes(SExpr::constant_bytes(seq![0x0a])),
            ),
            (
                "non_eol"@,
                SNode::fixed_length(SExpr::constant_int(1)),
            ),
            (
                "eol2"@,
                SNode::fixed_bytes(SExpr::constant_bytes(seq![0x0d, 0x0a])),
            ),
            (
                "compression_method"@,
                SNode::integer(16, false),
            ),
            (
                "padding"@,
                SNode::fixed_length(SExpr::constant_int(433)),
            ),
        ],
    )
}

/// Describes the header of a sparse VMDK disk image.
pub fn tmp_vmdk_header() -> (r: Node)
    ensures
        r.wf(),
        r.deep() == spec_vmdk_header(),
{
    let r =
        Node::structure(
            vec![
                (
                    Symbol::new("signature"),
                    Node::fixed_bytes(Expr::constant_bytes(vec![0x4b, 0x44, 0x4d, 0x56])),
                ),
                (
                    Symbol::new("version"),
                    Node::integer(32, false),
                ),
                (
                    Symbol::new("flags"),
                    Node::integer(32, false),
                ),
                (
                    Symbol::new("maximum_data_number_of_sectors"),
                    Node::integer(64, false),
                ),
                (
                    Symbol::new("grain_number_of_sectors"),
                    Node::integer(64, false),
                ),
                (
                    Symbol::new("descriptor_sector_number"),
                    Node::integer(64, false),
                ),
                (
                    Symbol::new("descriptor_number_of_sectors"),
                    Node::integer(64, false),
                ),
                (
                    Symbol::new("number_of_grains_table_entries"),
                    Node::integer(32, false),
                ),
                (
                    Symbol::new("secondary_grain_directory_sector_number"),
                    Node::integer(64, false),
                ),
                (
                    Symbol::new("grain_directory_sector_number"),
                    Node::integer(64, false),
                ),
                (
                    Symbol::new("metadata_number_of_sectors"),
                    Node::integer(64, false),
                ),
                (
                    Symbol::new("is_dirty"),
                    Node::integer(8, false),
                ),
                (
                    Symbol::new("eol1"),
                    Node::fixed_bytes(Expr::constant_bytes(vec![0x0a])),
                ),
                (
                    Symbol::new("non_eol"),
                    Node::fixed_length(Expr::constant_int(1)),
                ),
                (
                    Symbol::new("eol2"),
                    Node::fixed_bytes(Expr::constant_bytes(vec![0x0d, 0x0a])),
                ),
                (
                    Symbol::new("compression_method"),
                    Node::integer(16, false),
                ),
                (
                    Symbol::new("padding"),
                    Node::fixed_length(Expr::constant_int(433)),
                ),
            ],
        );
    proof {
        // the byte and field sequences are equal element by element, innermost first
        let a = r.deep();
        let b = spec_vmdk_header();
        assert(a.kind->Struct_0[0].1.kind->FixedBytes_0->ConstantBytes_0 =~= b.kind->Struct_0[0].1.kind->FixedBytes_0->ConstantBytes_0);
        assert(a.kind->Struct_0[0].1.kind->FixedBytes_0 == b.kind->Struct_0[0].1.kind->FixedBytes_0);
        assert(a.kind->Struct_0[0].1 == b.kind->Struct_0[0].1);
        assert(a.kind->Struct_0[12].1.kind->FixedBytes_0->ConstantBytes_0 =~= b.kind->Struct_0[12].1.kind->FixedBytes_0->ConstantBytes_0);
        assert(a.kind->Struct_0[12].1.kind->FixedBytes_0 == b.kind->Struct_0[12].1.kind->FixedBytes_0);
        assert(a.kind->Struct_0[12].1 == b.kind->Struct_0[12].1);
        assert(a.kind->Struct_0[14].1.kind->FixedBytes_0->ConstantBytes_0 =~= b.kind->Struct_0[14].1.kind->FixedBytes_0->ConstantBytes_0);
        assert(a.kind->Struct_0[14].1.kind->FixedBytes_0 == b.kind->Struct_0[14].1.kind->FixedBytes_0);
        assert(a.kind->Struct_0[14].1 == b.kind->Struct_0[14].1);
        assert forall|i: int| 0 <= i < 17 implies a.kind->Struct_0[i] == b.kind->Struct_0[i] by {
            if i == 0 {} else if i == 1 {} else if i == 2 {} else if i == 3 {} else if i == 4 {} else if i == 5 {} else if i == 6 {} else if i == 7 {} else if i == 8 {} else if i == 9 {} else if i == 10 {} else if i == 11 {} else if i == 12 {} else if i == 13 {} else if i == 14 {} else if i == 15 {} else if i == 16 {}
        }
        assert(a.kind->Struct_0 =~= b.kind->Struct_0);
    }
    r
}

/// The layout of the MZ header (the `MZ` magic and the offset of the PE header at 60), the PE
/// header (the 4-byte signature and the 20-byte COFF header), the optional header and each 40-byte
/// section entry: each field's name, the bytes it occupies and how they are read.
#[verifier::spinoff_prover]
#[verifier::rlimit(50)]
pub proof fn lemma_pe_file_layout()
    ensures
        field_layout(spec_pe_file().kind->Struct_0[0].1.kind->Struct_0, 0, 0).take(2) == seq![
            ("mz_magic"@, 0int, 2int, FieldShape::Bytes),
            ("new_exe_header"@, 60int, 64int, FieldShape::Unsigned),
        ],
        field_layout(spec_pe_file().kind->Struct_0[1].1.kind->Struct_0, 0, 0).take(8) == seq![
            ("pe_magic"@, 0int, 4int, FieldShape::Bytes),
            ("machine"@, 4int, 6int, FieldShape::Unsigned),
            ("num_of_sections"@, 6int, 8int, FieldShape::Unsigned),
            ("time_date_stamp"@, 8int, 12int, FieldShape::Unsigned),
            ("pointer_to_symbol_table"@, 12int, 16int, FieldShape::Unsigned),
            ("num_of_symbols"@, 16int, 20int, FieldShape::Unsigned),
            ("size_of_optional_header"@, 20int, 22int, FieldShape::Unsigned),
            ("characteristics"@, 22int, 24int, FieldShape::Unsigned),
        ],
        field_layout(spec_pe_file().kind->Struct_0[2].1.kind->Struct_0, 0, 0).take(9) == seq![
            ("optional_magic"@, 0int, 2int, FieldShape::Bytes),
            ("major_linker_version"@, 2int, 3int, FieldShape::Unsigned),
            ("minor_linker_version"@, 3int, 4int, FieldShape::Unsigned),
            ("size_of_code"@, 4int, 8int, FieldShape::Unsigned),
            ("size_of_initialized_data"@, 8int, 12int, FieldShape::Unsigned),
            ("size_of_uninitialized_data"@, 12int, 16int, FieldShape::Unsigned),
            ("addr_of_entry_point"@, 16int, 20int, FieldShape::Unsigned),
            ("base_of_code"@, 20int, 24int, FieldShape::Unsigned),
            ("base_of_data"@, 24int, 28int, FieldShape::Unsigned),
        ],
        field_layout(spec_pe_file().kind->Struct_0[3].1.kind->RepeatCount_0.kind->Struct_0, 0, 0).take(10) == seq![
            ("section_name"@, 0int, 8int, FieldShape::Bytes),
            ("virtual_size"@, 8int, 12int, FieldShape::Unsigned),
            ("virtual_address"@, 12int, 16int, FieldShape::Unsigned),
            ("size_of_raw_data"@, 16int, 20int, FieldShape::Unsigned),
            ("pointer_to_raw_data"@, 20int, 24int, FieldShape::Unsigned),
            ("pointer_to_relocations"@, 24int, 28int, FieldShape::Unsigned),
            ("pointer_to_line_numbers"@, 28int, 32int, FieldShape::Unsigned),
            ("number_of_relocations"@, 32int, 34int, FieldShape::Unsigned),
            ("number_of_line_numbers"@, 34int, 36int, FieldShape::Unsigned),
            ("characteristics"@, 36int, 40int, FieldShape::Unsigned),
        ],
{
    reveal_with_fuel(field_layout, 11);
    reveal_with_fuel(SNode::fields_size, 14);
    assert(field_layout(spec_pe_file().kind->Struct_0[0].1.kind->Struct_0, 0, 0).take(2) =~= seq![
        ("mz_magic"@, 0int, 2int, FieldShape::Bytes),
        ("new_exe_header"@, 60int, 64int, FieldShape::Unsigned),
    ]);
    assert(field_layout(spec_pe_file().kind->Struct_0[1].1.kind->Struct_0, 0, 0).take(8) =~= seq![
        ("pe_magic"@, 0int, 4int, FieldShape::Bytes),
        ("machine"@, 4int, 6int, FieldShape::Unsigned),
        ("num_of_sections"@, 6int, 8int, FieldShape::Unsigned),
        ("time_date_stamp"@, 8int, 12int, FieldShape::Unsigned),
        ("pointer_to_symbol_table"@, 12int, 16int, FieldShape::Unsigned),
        ("num_of_symbols"@, 16int, 20int, FieldShape::Unsigned),
        ("size_of_optional_header"@, 20int, 22int, FieldShape::Unsigned),
        ("characteristics"@, 22int, 24int, FieldShape::Unsigned),
    ]);
    assert(field_layout(spec_pe_file().kind->Struct_0[2].1.kind->Struct_0, 0, 0).take(9) =~= seq![
        ("optional_magic"@, 0int, 2int, FieldShape::Bytes),
        ("major_linker_version"@, 2int, 3int, FieldShape::Unsigned),
        ("minor_linker_version"@, 3int, 4int, FieldShape::Unsigned),
        ("size_of_code"@, 4int, 8int, FieldShape::Unsigned),
        ("size_of_initialized_data"@, 8int, 12int, FieldShape::Unsigned),
        ("size_of_uninitialized_data"@, 12int, 16int, FieldShape::Unsigned),
        ("addr_of_entry_point"@, 16int, 20int, FieldShape::Unsigned),
        ("base_of_code"@, 20int, 24int, FieldShape::Unsigned),
        ("base_of_data"@, 24int, 28int, FieldShape::Unsigned),
    ]);
    assert(field_layout(spec_pe_file().kind->Struct_0[3].1.kind->RepeatCount_0.kind->Struct_0, 0, 0).take(10) =~= seq![
        ("section_name"@, 0int, 8int, FieldShape::Bytes),
        ("virtual_size"@, 8int, 12int, FieldShape::Unsigned),
        ("virtual_address"@, 12int, 16int, FieldShape::Unsigned),
        ("size_of_raw_data"@, 16int, 20int, FieldShape::Unsigned),
        ("pointer_to_raw_data"@, 20int, 24int, FieldShape::Unsigned),
        ("pointer_to_relocations"@, 24int, 28int, FieldShape::Unsigned),
        ("pointer_to_line_numbers"@, 28int, 32int, FieldShape::Unsigned),
        ("number_of_relocations"@, 32int, 34int, FieldShape::Unsigned),
        ("number_of_line_numbers"@, 34int, 36int, FieldShape::Unsigned),
        ("characteristics"@, 36int, 40int, FieldShape::Unsigned),
    ]);
}

/// The layout of the 42-byte header of an MFT entry (the `FILE` magic at 0, the first attribute at
/// 20, the used and total entry sizes at 24 and 28) and the 16-byte header of each attribute: each
/// field's name, the bytes it occupies and how they are read.
#[verifier::spinoff_prover]
#[verifier::rlimit(50)]
pub proof fn lemma_mft_entry_layout()
    ensures
        field_layout(spec_mft_entry().kind->Struct_0, 0, 0).take(1) == seq![
            ("header"@, 0int, 42int, FieldShape::Other),
        ],
        field_layout(spec_mft_entry().kind->Struct_0[0].1.kind->Struct_0, 0, 0).take(12) == seq![
            ("magic"@, 0int, 4int, FieldShape::Bytes),
            ("fixup_value_offset"@, 4int, 6int, FieldShape::Unsigned),
            ("num_fixup_values"@, 6int, 8int, FieldShape::Unsigned),
            ("log_sequence_number"@, 8int, 16int, FieldShape::Unsigned),
            ("sequence_number"@, 16int, 18int, FieldShape::Unsigned),
            ("reference_count"@, 18int, 20int, FieldShape::Unsigned),
            ("first_attribute"@, 20int, 22int, FieldShape::Unsigned),
            ("entry_flags"@, 22int, 24int, FieldShape::Unsigned),
            ("used_entry_size"@, 24int, 28int, FieldShape::Unsigned),
            ("total_entry_size"@, 28int, 32int, FieldShape::Unsigned),
            ("file_reference"@, 32int, 40int, FieldShape::Unsigned),
            ("first_attribute_identifier"@, 40int, 42int, FieldShape::Unsigned),
        ],
        field_layout(spec_mft_entry().kind->Struct_0[1].1.kind->RepeatWhile_0.kind->Struct_0, 0, 0).take(7) == seq![
            ("type"@, 0int, 4int, FieldShape::Unsigned),
            ("size"@, 4int, 8int, FieldShape::Unsigned),
            ("nonresident"@, 8int, 9int, FieldShape::Unsigned),
            ("name_size"@, 9int, 10int, FieldShape::Unsigned),
            ("name_offset"@, 10int, 12int, FieldShape::Unsigned),
            ("attribute_data_flags"@, 12int, 14int, FieldShape::Unsigned),
            ("attribute_identifier"@, 14int, 16int, FieldShape::Unsigned),
        ],
        field_layout(spec_mft_entry().kind->Struct_0[1].1.kind->RepeatWhile_0.kind->Struct_0[7].1.kind->Switch_1[0].1.kind->Struct_0, 0, 0).take(4) == seq![
            ("data_size"@, 0int, 4int, FieldShape::Unsigned),
            ("data_offset"@, 4int, 6int, FieldShape::Unsigned),
            ("indexed_flag"@, 6int, 7int, FieldShape::Unsigned),
            ("padding"@, 7int, 8int, FieldShape::Bytes),
        ],
        field_layout(spec_mft_entry().kind->Struct_0[1].1.kind->RepeatWhile_0.kind->Struct_0[7].1.kind->Switch_2.kind->Struct_0, 0, 0).take(9) == seq![
            ("first_virtual_cluster_number"@, 0int, 8int, FieldShape::Unsigned),
            ("last_virtual_cluster_number"@, 8int, 16int, FieldShape::Unsigned),
            ("data_runs_offset"@, 16int, 18int, FieldShape::Unsigned),
            ("compression_unit_size"@, 18int, 20int, FieldShape::Unsigned),
            ("padding"@, 20int, 24int, FieldShape::Bytes),
            ("allocated_data_size"@, 24int, 32int, FieldShape::Unsigned),
            ("data_size"@, 32int, 40int, FieldShape::Unsigned),
            ("valid_data_size"@, 40int, 48int, FieldShape::Unsigned),
            ("total_allocated_size"@, 48int, 56int, FieldShape::Unsigned),
        ],
{
    reveal_with_fuel(field_layout, 13);
    reveal_with_fuel(SNode::fields_size, 14);
    assert(SNode::fields_size(spec_mft_entry().kind->Struct_0[0].1.kind->Struct_0, 0) == 42);
    assert(spec_mft_entry().kind->Struct_0[0].1.fixed_size() == 42);
    assert(field_layout(spec_mft_entry().kind->Struct_0, 0, 0).take(1) =~= seq![
        ("header"@, 0int, 42int, FieldShape::Other),
    ]);
    assert(field_layout(spec_mft_entry().kind->Struct_0[0].1.kind->Struct_0, 0, 0).take(12) =~= seq![
        ("magic"@, 0int, 4int, FieldShape::Bytes),
        ("fixup_value_offset"@, 4int, 6int, FieldShape::Unsigned),
        ("num_fixup_values"@, 6int, 8int, FieldShape::Unsigned),
        ("log_sequence_number"@, 8int, 16int, FieldShape::Unsigned),
        ("sequence_number"@, 16int, 18int, FieldShape::Unsigned),
        ("reference_count"@, 18int, 20int, FieldShape::Unsigned),
        ("first_attribute"@, 20int, 22int, FieldShape::Unsigned),
        ("entry_flags"@, 22int, 24int, FieldShape::Unsigned),
        ("used_entry_size"@, 24int, 28int, FieldShape::Unsigned),
        ("total_entry_size"@, 28int, 32int, FieldShape::Unsigned),
        ("file_reference"@, 32int, 40int, FieldShape::Unsigned),
        ("first_attribute_identifier"@, 40int, 42int, FieldShape::Unsigned),
    ]);
    assert(field_layout(spec_mft_entry().kind->Struct_0[1].1.kind->RepeatWhile_0.kind->Struct_0, 0, 0).take(7) =~= seq![
        ("type"@, 0int, 4int, FieldShape::Unsigned),
        ("size"@, 4int, 8int, FieldShape::Unsigned),
        ("nonresident"@, 8int, 9int, FieldShape::Unsigned),
        ("name_size"@, 9int, 10int, FieldShape::Unsigned),
        ("name_offset"@, 10int, 12int, FieldShape::Unsigned),
        ("attribute_data_flags"@, 12int, 14int, FieldShape::Unsigned),
        ("attribute_identifier"@, 14int, 16int, FieldShape::Unsigned),
    ]);
    assert(field_layout(spec_mft_entry().kind->Struct_0[1].1.kind->RepeatWhile_0.kind->Struct_0[7].1.kind->Switch_1[0].1.kind->Struct_0, 0, 0).take(4) =~= seq![
        ("data_size"@, 0int, 4int, FieldShape::Unsigned),
        ("data_offset"@, 4int, 6int, FieldShape::Unsigned),
        ("indexed_flag"@, 6int, 7int, FieldShape::Unsigned),
        ("padding"@, 7int, 8int, FieldShape::Bytes),
    ]);
    assert(field_layout(spec_mft_entry().kind->Struct_0[1].1.kind->RepeatWhile_0.kind->Struct_0[7].1.kind->Switch_2.kind->Struct_0, 0, 0).take(9) =~= seq![
        ("first_virtual_cluster_number"@, 0int, 8int, FieldShape::Unsigned),
        ("last_virtual_cluster_number"@, 8int, 16int, FieldShape::Unsigned),
        ("data_runs_offset"@, 16int, 18int, FieldShape::Unsigned),
        ("compression_unit_size"@, 18int, 20int, FieldShape::Unsigned),
        ("padding"@, 20int, 24int, FieldShape::Bytes),
        ("allocated_data_size"@, 24int, 32int, FieldShape::Unsigned),
        ("data_size"@, 32int, 40int, FieldShape::Unsigned),
        ("valid_data_size"@, 40int, 48int, FieldShape::Unsigned),
        ("total_allocated_size"@, 48int, 56int, FieldShape::Unsigned),
    ]);
}

/// The layout of the standard information attribute: four 8-byte timestamps, the flags at 32 and
/// the update sequence number at 64: each field's name, the bytes it occupies and how they are
/// read.
#[verifier::spinoff_prover]
#[verifier::rlimit(50)]
pub proof fn lemma_mft_standard_information_layout()
    ensures
        field_layout(spec_mft_standard_information().kind->Struct_0, 0, 0).take(12) == seq![
            ("creation_time"@, 0int, 8int, FieldShape::Unsigned),
            ("modification_time"@, 8int, 16int, FieldShape::Unsigned),
            ("changed_time"@, 16int, 24int, FieldShape::Unsigned),
            ("access_time"@, 24int, 32int, FieldShape::Unsigned),
            ("file_attribute_flags"@, 32int, 36int, FieldShape::Unsigned),
            ("maximum_number_of_versions"@, 36int, 40int, FieldShape::Unsigned),
            ("version_number"@, 40int, 44int, FieldShape::Unsigned),
            ("class_identifier"@, 44int, 48int, FieldShape::Unsigned),
            ("owner_identifier"@, 48int, 52int, FieldShape::Unsigned),
            ("security_descriptor_identifier"@, 52int, 56int, FieldShape::Unsigned),
            ("quota_charged"@, 56int, 64int, FieldShape::Unsigned),
            ("update_sequence_number"@, 64int, 72int, FieldShape::Unsigned),
        ],
{
    reveal_with_fuel(field_layout, 13);
    reveal_with_fuel(SNode::fields_size, 14);
    assert(field_layout(spec_mft_standard_information().kind->Struct_0, 0, 0).take(12) =~= seq![
        ("creation_time"@, 0int, 8int, FieldShape::Unsigned),
        ("modification_time"@, 8int, 16int, FieldShape::Unsigned),
        ("changed_time"@, 16int, 24int, FieldShape::Unsigned),
        ("access_time"@, 24int, 32int, FieldShape::Unsigned),
        ("file_attribute_flags"@, 32int, 36int, FieldShape::Unsigned),
        ("maximum_number_of_versions"@, 36int, 40int, FieldShape::Unsigned),
        ("version_number"@, 40int, 44int, FieldShape::Unsigned),
        ("class_identifier"@, 44int, 48int, FieldShape::Unsigned),
        ("owner_identifier"@, 48int, 52int, FieldShape::Unsigned),
        ("security_descriptor_identifier"@, 52int, 56int, FieldShape::Unsigned),
        ("quota_charged"@, 56int, 64int, FieldShape::Unsigned),
        ("update_sequence_number"@, 64int, 72int, FieldShape::Unsigned),
    ]);
}

/// The layout of the file name attribute: the parent reference, four timestamps, the sizes and
/// flags, the name length at 64 and the namespace at 65: each field's name, the bytes it occupies
/// and how they are read.
#[verifier::spinoff_prover]
#[verifier::rlimit(50)]
pub proof fn lemma_mft_file_name_layout()
    ensures
        field_layout(spec_mft_file_name().kind->Struct_0, 0, 0).take(11) == seq![
            ("parent_file_reference"@, 0int, 8int, FieldShape::Unsigned),
            ("creation_time"@, 8int, 16int, FieldShape::Unsigned),
            ("modification_time"@, 16int, 24int, FieldShape::Unsigned),
            ("changed_time"@, 24int, 32int, FieldShape::Unsigned),
            ("access_time"@, 32int, 40int, FieldShape::Unsigned),
            ("allocated_file_size"@, 40int, 48int, FieldShape::Unsigned),
            ("file_size"@, 48int, 56int, FieldShape::Unsigned),
            ("file_attribute_flags"@, 56int, 60int, FieldShape::Unsigned),
            ("extended_data"@, 60int, 64int, FieldShape::Unsigned),
            ("name_string_size"@, 64int, 65int, FieldShape::Unsigned),
            ("namespace"@, 65int, 66int, FieldShape::Unsigned),
        ],
{
    reveal_with_fuel(field_layout, 12);
    reveal_with_fuel(SNode::fields_size, 14);
    assert(field_layout(spec_mft_file_name().kind->Struct_0, 0, 0).take(11) =~= seq![
        ("parent_file_reference"@, 0int, 8int, FieldShape::Unsigned),
        ("creation_time"@, 8int, 16int, FieldShape::Unsigned),
        ("modification_time"@, 16int, 24int, FieldShape::Unsigned),
        ("changed_time"@, 24int, 32int, FieldShape::Unsigned),
        ("access_time"@, 32int, 40int, FieldShape::Unsigned),
        ("allocated_file_size"@, 40int, 48int, FieldShape::Unsigned),
        ("file_size"@, 48int, 56int, FieldShape::Unsigned),
        ("file_attribute_flags"@, 56int, 60int, FieldShape::Unsigned),
        ("extended_data"@, 60int, 64int, FieldShape::Unsigned),
        ("name_string_size"@, 64int, 65int, FieldShape::Unsigned),
        ("namespace"@, 65int, 66int, FieldShape::Unsigned),
    ]);
}

/// The layout of the index root: the attribute type, the collation type, the index entry size and
/// the clusters per index entry: each field's name, the bytes it occupies and how they are read.
#[verifier::spinoff_prover]
#[verifier::rlimit(50)]
pub proof fn lemma_mft_index_root_layout()
    ensures
        field_layout(spec_mft_index_root().kind->Struct_0, 0, 0).take(4) == seq![
            ("attribute_type"@, 0int, 4int, FieldShape::Unsigned),
            ("collation_type"@, 4int, 8int, FieldShape::Unsigned),
            ("index_entry_size"@, 8int, 12int, FieldShape::Unsigned),
            ("index_entry_number_of_cluster_blocks"@, 12int, 16int, FieldShape::Unsigned),
        ],
{
    reveal_with_fuel(field_layout, 5);
    reveal_with_fuel(SNode::fields_size, 14);
    assert(field_layout(spec_mft_index_root().kind->Struct_0, 0, 0).take(4) =~= seq![
        ("attribute_type"@, 0int, 4int, FieldShape::Unsigned),
        ("collation_type"@, 4int, 8int, FieldShape::Unsigned),
        ("index_entry_size"@, 8int, 12int, FieldShape::Unsigned),
        ("index_entry_number_of_cluster_blocks"@, 12int, 16int, FieldShape::Unsigned),
    ]);
}

/// The layout of the index node header: the offset of the index values, the node size, the
/// allocated size and the flags: each field's name, the bytes it occupies and how they are read.
#[verifier::spinoff_prover]
#[verifier::rlimit(50)]
pub proof fn lemma_mft_index_node_header_layout()
    ensures
        field_layout(spec_mft_index_node_header().kind->Struct_0, 0, 0).take(4) == seq![
            ("index_values_offset"@, 0int, 4int, FieldShape::Unsigned),
            ("index_node_size"@, 4int, 8int, FieldShape::Unsigned),
            ("allocated_index_node_size"@, 8int, 12int, FieldShape::Unsigned),
            ("index_node_flags"@, 12int, 16int, FieldShape::Unsigned),
        ],
{
    reveal_with_fuel(field_layout, 5);
    reveal_with_fuel(SNode::fields_size, 14);
    assert(field_layout(spec_mft_index_node_header().kind->Struct_0, 0, 0).take(4) =~= seq![
        ("index_values_offset"@, 0int, 4int, FieldShape::Unsigned),
        ("index_node_size"@, 4int, 8int, FieldShape::Unsigned),
        ("allocated_index_node_size"@, 8int, 12int, FieldShape::Unsigned),
        ("index_node_flags"@, 12int, 16int, FieldShape::Unsigned),
    ]);
}

/// The layout of the index entry header (the `INDX` signature, the fixup offset and count, the
/// journal sequence number and the virtual cluster number) and the 16-byte header of each index
/// value: each field's name, the bytes it occupies and how they are read.
#[verifier::spinoff_prover]
#[verifier::rlimit(50)]
pub proof fn lemma_mft_index_entry_layout()
    ensures
        field_layout(spec_mft_index_entry().kind->Struct_0, 0, 0).take(5) == seq![
            ("signature"@, 0int, 4int, FieldShape::Bytes),
            ("fixup_values_offset"@, 4int, 6int, FieldShape::Unsigned),
            ("num_of_fixup_values"@, 6int, 8int, FieldShape::Unsigned),
            ("metadata_transaction_journal_sequence_number"@, 8int, 16int, FieldShape::Unsigned),
            ("virtual_cluster_number_of_index_entry"@, 16int, 24int, FieldShape::Unsigned),
        ],
        field_layout(spec_mft_index_entry().kind->Struct_0[6].1.kind->RepeatWhile_0.kind->Struct_0, 0, 0).take(4) == seq![
            ("file_reference"@, 0int, 8int, FieldShape::Unsigned),
            ("index_value_size"@, 8int, 10int, FieldShape::Unsigned),
            ("index_key_data_size"@, 10int, 12int, FieldShape::Unsigned),
            ("index_value_flags"@, 12int, 16int, FieldShape::Unsigned),
        ],
{
    reveal_with_fuel(field_layout, 6);
    reveal_with_fuel(SNode::fields_size, 14);
    assert(field_layout(spec_mft_index_entry().kind->Struct_0, 0, 0).take(5) =~= seq![
        ("signature"@, 0int, 4int, FieldShape::Bytes),
        ("fixup_values_offset"@, 4int, 6int, FieldShape::Unsigned),
        ("num_of_fixup_values"@, 6int, 8int, FieldShape::Unsigned),
        ("metadata_transaction_journal_sequence_number"@, 8int, 16int, FieldShape::Unsigned),
        ("virtual_cluster_number_of_index_entry"@, 16int, 24int, FieldShape::Unsigned),
    ]);
    assert(field_layout(spec_mft_index_entry().kind->Struct_0[6].1.kind->RepeatWhile_0.kind->Struct_0, 0, 0).take(4) =~= seq![
        ("file_reference"@, 0int, 8int, FieldShape::Unsigned),
        ("index_value_size"@, 8int, 10int, FieldShape::Unsigned),
        ("index_key_data_size"@, 10int, 12int, FieldShape::Unsigned),
        ("index_value_flags"@, 12int, 16int, FieldShape::Unsigned),
    ]);
}

/// The layout of the NTFS boot sector: the jump instruction, the `NTFS    ` signature, the sector
/// and cluster sizes at 11 and 13, the number of sectors at 40, the MFT and MFT mirror cluster
/// numbers at 48 and 56, the MFT entry size at 64, the index entry size at 68, the volume serial
/// number at 72 and the boot signature at 510: each field's name, the bytes it occupies and how
/// they are read.
#[verifier::spinoff_prover]
#[verifier::rlimit(50)]
pub proof fn lemma_ntfs_boot_sector_layout()
    ensures
        field_layout(spec_ntfs_header().kind->Struct_0, 0, 0).take(11) == seq![
            ("boot_entry_point"@, 0int, 3int, FieldShape::Bytes),
            ("file_system_signature"@, 3int, 11int, FieldShape::Bytes),
            ("bytes_per_sector"@, 11int, 13int, FieldShape::Unsigned),
            ("sectors_per_cluster_block"@, 13int, 14int, FieldShape::Unsigned),
            ("number_of_sectors"@, 40int, 48int, FieldShape::Unsigned),
            ("mft_cluster_block_number"@, 48int, 56int, FieldShape::Unsigned),
            ("mft_mirr_cluster_block_number"@, 56int, 64int, FieldShape::Unsigned),
            ("mft_entry_size"@, 64int, 65int, FieldShape::Unsigned),
            ("index_entry_size"@, 68int, 69int, FieldShape::Unsigned),
            ("volume_serial_number"@, 72int, 80int, FieldShape::Bytes),
            ("sector_signature"@, 510int, 512int, FieldShape::Bytes),
        ],
        spans_disjoint(layout_spans(field_layout(spec_ntfs_header().kind->Struct_0, 0, 0))),
{
    reveal_with_fuel(field_layout, 12);
    reveal_with_fuel(SNode::fields_size, 14);
    assert(field_layout(spec_ntfs_header().kind->Struct_0, 0, 0).take(11) =~= seq![
        ("boot_entry_point"@, 0int, 3int, FieldShape::Bytes),
        ("file_system_signature"@, 3int, 11int, FieldShape::Bytes),
        ("bytes_per_sector"@, 11int, 13int, FieldShape::Unsigned),
        ("sectors_per_cluster_block"@, 13int, 14int, FieldShape::Unsigned),
        ("number_of_sectors"@, 40int, 48int, FieldShape::Unsigned),
        ("mft_cluster_block_number"@, 48int, 56int, FieldShape::Unsigned),
        ("mft_mirr_cluster_block_number"@, 56int, 64int, FieldShape::Unsigned),
        ("mft_entry_size"@, 64int, 65int, FieldShape::Unsigned),
        ("index_entry_size"@, 68int, 69int, FieldShape::Unsigned),
        ("volume_serial_number"@, 72int, 80int, FieldShape::Bytes),
        ("sector_signature"@, 510int, 512int, FieldShape::Bytes),
    ]);
}

/// The layout of the BitLocker volume header: the jump instruction, the `-FVE-FS-` signature, the
/// sector and cluster sizes, the number of sectors at 40, the MFT cluster numbers at 48 and 56,
/// the MFT entry size at 64, the volume GUID at 160, the three FVE metadata offsets at 176, 184
/// and 192 (three unsigned 64-bit integers), the two further offsets at 200 and 208 and the boot
/// signature at 510: each field's name, the bytes it occupies and how they are read.
#[verifier::spinoff_prover]
#[verifier::rlimit(50)]
pub proof fn lemma_bitlocker_header_layout()
    ensures
        field_layout(spec_bitlocker_header().kind->Struct_0, 0, 0).take(12) == seq![
            ("boot_entry_point"@, 0int, 3int, FieldShape::Bytes),
            ("file_system_signature"@, 3int, 11int, FieldShape::Bytes),
            ("bytes_per_sector"@, 11int, 13int, FieldShape::Unsigned),
            ("sectors_per_cluster_block"@, 13int, 14int, FieldShape::Unsigned),
            ("number_of_sectors"@, 40int, 48int, FieldShape::Unsigned),
            ("mft_cluster_block_number"@, 48int, 56int, FieldShape::Unsigned),
            ("mft_mirr_cluster_block_number"@, 56int, 64int, FieldShape::Unsigned),
            ("mft_entry_size"@, 64int, 65int, FieldShape::Unsigned),
            ("volume_serial_number"@, 160int, 176int, FieldShape::Bytes),
            ("information_offsets"@, 176int, 200int, FieldShape::Other),
            ("eow_information_offsets"@, 200int, 216int, FieldShape::Other),
            ("sector_signature"@, 510int, 512int, FieldShape::Bytes),
        ],
        spans_disjoint(layout_spans(field_layout(spec_bitlocker_header().kind->Struct_0, 0, 0))),
        spec_bitlocker_header().kind->Struct_0[9].1.kind->RepeatCount_1 == SExpr::ConstantInt(3),
        field_shape(*spec_bitlocker_header().kind->Struct_0[9].1.kind->RepeatCount_0)
            == FieldShape::Unsigned,
        spec_bitlocker_header().kind->Struct_0[9].1.kind->RepeatCount_0.fixed_size() == 8,
{
    reveal_with_fuel(field_layout, 13);
    reveal_with_fuel(SNode::fields_size, 14);
    assert(spec_bitlocker_header().kind->Struct_0[9].1.kind->RepeatCount_0.fixed_size() == 8);
    assert(spec_bitlocker_header().kind->Struct_0[9].1.fixed_size() == 3 * 8);
    assert(spec_bitlocker_header().kind->Struct_0[10].1.kind->RepeatCount_0.fixed_size() == 8);
    assert(spec_bitlocker_header().kind->Struct_0[10].1.fixed_size() == 2 * 8);
    assert(field_layout(spec_bitlocker_header().kind->Struct_0, 0, 0).take(12) =~= seq![
        ("boot_entry_point"@, 0int, 3int, FieldShape::Bytes),
        ("file_system_signature"@, 3int, 11int, FieldShape::Bytes),
        ("bytes_per_sector"@, 11int, 13int, FieldShape::Unsigned),
        ("sectors_per_cluster_block"@, 13int, 14int, FieldShape::Unsigned),
        ("number_of_sectors"@, 40int, 48int, FieldShape::Unsigned),
        ("mft_cluster_block_number"@, 48int, 56int, FieldShape::Unsigned),
        ("mft_mirr_cluster_block_number"@, 56int, 64int, FieldShape::Unsigned),
        ("mft_entry_size"@, 64int, 65int, FieldShape::Unsigned),
        ("volume_serial_number"@, 160int, 176int, FieldShape::Bytes),
        ("information_offsets"@, 176int, 200int, FieldShape::Other),
        ("eow_information_offsets"@, 200int, 216int, FieldShape::Other),
        ("sector_signature"@, 510int, 512int, FieldShape::Bytes),
    ]);
}

/// The layout of the FVE metadata block header (the `-FVE-FS-` signature, the size, versions and
/// states, the encrypted volume size, the three information offsets at 32 and the boot sector
/// backup at 56), the 48-byte dataset header and the 8-byte header of each datum: each field's
/// name, the bytes it occupies and how they are read.
#[verifier::spinoff_prover]
#[verifier::rlimit(50)]
pub proof fn lemma_bitlocker_information_layout()
    ensures
        field_layout(spec_bitlocker_information().kind->Struct_0, 0, 0).take(11) == seq![
            ("signature"@, 0int, 8int, FieldShape::Bytes),
            ("size"@, 8int, 10int, FieldShape::Unsigned),
            ("version"@, 10int, 12int, FieldShape::Unsigned),
            ("current_state"@, 12int, 14int, FieldShape::Unsigned),
            ("next_state"@, 14int, 16int, FieldShape::Unsigned),
            ("encrypted_volume_size"@, 16int, 24int, FieldShape::Unsigned),
            ("convert_size"@, 24int, 28int, FieldShape::Unsigned),
            ("num_of_backup_sectors"@, 28int, 32int, FieldShape::Unsigned),
            ("information_offsets"@, 32int, 56int, FieldShape::Other),
            ("boot_sector_backup"@, 56int, 64int, FieldShape::Unsigned),
            ("dataset"@, 64int, 112int, FieldShape::Other),
        ],
        field_layout(spec_bitlocker_information().kind->Struct_0[10].1.kind->Struct_0, 0, 0).take(9) == seq![
            ("size"@, 0int, 4int, FieldShape::Unsigned),
            ("unknown1"@, 4int, 8int, FieldShape::Unsigned),
            ("header_size"@, 8int, 12int, FieldShape::Unsigned),
            ("copy_size"@, 12int, 16int, FieldShape::Unsigned),
            ("guid"@, 16int, 32int, FieldShape::Bytes),
            ("next_counter"@, 32int, 36int, FieldShape::Unsigned),
            ("algorithm"@, 36int, 38int, FieldShape::Unsigned),
            ("trash"@, 38int, 40int, FieldShape::Unsigned),
            ("timestamp"@, 40int, 48int, FieldShape::Unsigned),
        ],
        field_layout(spec_bitlocker_information().kind->Struct_0[11].1.kind->RepeatWhile_0.kind->Struct_0, 0, 0).take(4) == seq![
            ("size"@, 0int, 2int, FieldShape::Unsigned),
            ("entry_type"@, 2int, 4int, FieldShape::Unsigned),
            ("value_type"@, 4int, 6int, FieldShape::Unsigned),
            ("error_status"@, 6int, 8int, FieldShape::Unsigned),
        ],
{
    reveal_with_fuel(field_layout, 12);
    reveal_with_fuel(SNode::fields_size, 14);
    assert(spec_bitlocker_information().kind->Struct_0[8].1.kind->RepeatCount_0.fixed_size() == 8);
    assert(spec_bitlocker_information().kind->Struct_0[8].1.fixed_size() == 3 * 8);
    assert(SNode::fields_size(spec_bitlocker_information().kind->Struct_0[10].1.kind->Struct_0, 0) == 48);
    assert(spec_bitlocker_information().kind->Struct_0[10].1.fixed_size() == 48);
    assert(field_layout(spec_bitlocker_information().kind->Struct_0, 0, 0).take(11) =~= seq![
        ("signature"@, 0int, 8int, FieldShape::Bytes),
        ("size"@, 8int, 10int, FieldShape::Unsigned),
        ("version"@, 10int, 12int, FieldShape::Unsigned),
        ("current_state"@, 12int, 14int, FieldShape::Unsigned),
        ("next_state"@, 14int, 16int, FieldShape::Unsigned),
        ("encrypted_volume_size"@, 16int, 24int, FieldShape::Unsigned),
        ("convert_size"@, 24int, 28int, FieldShape::Unsigned),
        ("num_of_backup_sectors"@, 28int, 32int, FieldShape::Unsigned),
        ("information_offsets"@, 32int, 56int, FieldShape::Other),
        ("boot_sector_backup"@, 56int, 64int, FieldShape::Unsigned),
        ("dataset"@, 64int, 112int, FieldShape::Other),
    ]);
    assert(field_layout(spec_bitlocker_information().kind->Struct_0[10].1.kind->Struct_0, 0, 0).take(9) =~= seq![
        ("size"@, 0int, 4int, FieldShape::Unsigned),
        ("unknown1"@, 4int, 8int, FieldShape::Unsigned),
        ("header_size"@, 8int, 12int, FieldShape::Unsigned),
        ("copy_size"@, 12int, 16int, FieldShape::Unsigned),
        ("guid"@, 16int, 32int, FieldShape::Bytes),
        ("next_counter"@, 32int, 36int, FieldShape::Unsigned),
        ("algorithm"@, 36int, 38int, FieldShape::Unsigned),
        ("trash"@, 38int, 40int, FieldShape::Unsigned),
        ("timestamp"@, 40int, 48int, FieldShape::Unsigned),
    ]);
    assert(field_layout(spec_bitlocker_information().kind->Struct_0[11].1.kind->RepeatWhile_0.kind->Struct_0, 0, 0).take(4) =~= seq![
        ("size"@, 0int, 2int, FieldShape::Unsigned),
        ("entry_type"@, 2int, 4int, FieldShape::Unsigned),
        ("value_type"@, 4int, 6int, FieldShape::Unsigned),
        ("error_status"@, 6int, 8int, FieldShape::Unsigned),
    ]);
}

/// The layout of the VHDX region table header (the `regi` signature, the checksum, the number of
/// entries, the reserved field) and each 32-byte entry: each field's name, the bytes it occupies
/// and how they are read.
#[verifier::spinoff_prover]
#[verifier::rlimit(50)]
pub proof fn lemma_vhdx_region_table_layout()
    ensures
        field_layout(spec_vhdx_region_table().kind->Struct_0, 0, 0).take(4) == seq![
            ("signature"@, 0int, 4int, FieldShape::Bytes),
            ("checksum"@, 4int, 8int, FieldShape::Unsigned),
            ("number_of_entries"@, 8int, 12int, FieldShape::Unsigned),
            ("reserved"@, 12int, 16int, FieldShape::Unsigned),
        ],
        field_layout(spec_vhdx_region_table().kind->Struct_0[4].1.kind->RepeatCount_0.kind->Struct_0, 0, 0).take(4) == seq![
            ("region_type_identifier"@, 0int, 16int, FieldShape::Bytes),
            ("region_data_offset"@, 16int, 24int, FieldShape::Unsigned),
            ("region_data_size"@, 24int, 28int, FieldShape::Unsigned),
            ("is_required_flag"@, 28int, 32int, FieldShape::Unsigned),
        ],
{
    reveal_with_fuel(field_layout, 5);
    reveal_with_fuel(SNode::fields_size, 14);
    assert(field_layout(spec_vhdx_region_table().kind->Struct_0, 0, 0).take(4) =~= seq![
        ("signature"@, 0int, 4int, FieldShape::Bytes),
        ("checksum"@, 4int, 8int, FieldShape::Unsigned),
        ("number_of_entries"@, 8int, 12int, FieldShape::Unsigned),
        ("reserved"@, 12int, 16int, FieldShape::Unsigned),
    ]);
    assert(field_layout(spec_vhdx_region_table().kind->Struct_0[4].1.kind->RepeatCount_0.kind->Struct_0, 0, 0).take(4) =~= seq![
        ("region_type_identifier"@, 0int, 16int, FieldShape::Bytes),
        ("region_data_offset"@, 16int, 24int, FieldShape::Unsigned),
        ("region_data_size"@, 24int, 28int, FieldShape::Unsigned),
        ("is_required_flag"@, 28int, 32int, FieldShape::Unsigned),
    ]);
}

/// The layout of the VHDX metadata table header (the `metadata` signature, the number of entries
/// at 10) and each 32-byte entry: each field's name, the bytes it occupies and how they are read.
#[verifier::spinoff_prover]
#[verifier::rlimit(50)]
pub proof fn lemma_vhdx_metadata_table_layout()
    ensures
        field_layout(spec_vhdx_metadata_table().kind->Struct_0, 0, 0).take(4) == seq![
            ("signature"@, 0int, 8int, FieldShape::Bytes),
            ("unknown"@, 8int, 10int, FieldShape::Unsigned),
            ("number_of_entries"@, 10int, 12int, FieldShape::Unsigned),
            ("unknown2"@, 12int, 32int, FieldShape::Bytes),
        ],
        field_layout(spec_vhdx_metadata_table().kind->Struct_0[4].1.kind->RepeatCount_0.kind->Struct_0, 0, 0).take(4) == seq![
            ("metadata_item_identifier"@, 0int, 16int, FieldShape::Bytes),
            ("metadata_item_offset"@, 16int, 20int, FieldShape::Unsigned),
            ("metadata_item_size"@, 20int, 24int, FieldShape::Unsigned),
            ("unknown"@, 24int, 32int, FieldShape::Unsigned),
        ],
{
    reveal_with_fuel(field_layout, 5);
    reveal_with_fuel(SNode::fields_size, 14);
    assert(field_layout(spec_vhdx_metadata_table().kind->Struct_0, 0, 0).take(4) =~= seq![
        ("signature"@, 0int, 8int, FieldShape::Bytes),
        ("unknown"@, 8int, 10int, FieldShape::Unsigned),
        ("number_of_entries"@, 10int, 12int, FieldShape::Unsigned),
        ("unknown2"@, 12int, 32int, FieldShape::Bytes),
    ]);
    assert(field_layout(spec_vhdx_metadata_table().kind->Struct_0[4].1.kind->RepeatCount_0.kind->Struct_0, 0, 0).take(4) =~= seq![
        ("metadata_item_identifier"@, 0int, 16int, FieldShape::Bytes),
        ("metadata_item_offset"@, 16int, 20int, FieldShape::Unsigned),
        ("metadata_item_size"@, 20int, 24int, FieldShape::Unsigned),
        ("unknown"@, 24int, 32int, FieldShape::Unsigned),
    ]);
}

/// The layout of the 512-byte VMDK sparse header: the `KDMV` signature, the version and flags, the
/// capacities and sector numbers, the dirty flag at 72, the line-ending check bytes at 73 to 76
/// and the compression method at 77: each field's name, the bytes it occupies and how they are
/// read.
#[verifier::spinoff_prover]
#[verifier::rlimit(50)]
pub proof fn lemma_vmdk_header_layout()
    ensures
        field_layout(spec_vmdk_header().kind->Struct_0, 0, 0).take(17) == seq![
            ("signature"@, 0int, 4int, FieldShape::Bytes),
            ("version"@, 4int, 8int, FieldShape::Unsigned),
            ("flags"@, 8int, 12int, FieldShape::Unsigned),
            ("maximum_data_number_of_sectors"@, 12int, 20int, FieldShape::Unsigned),
            ("grain_number_of_sectors"@, 20int, 28int, FieldShape::Unsigned),
            ("descriptor_sector_number"@, 28int, 36int, FieldShape::Unsigned),
            ("descriptor_number_of_sectors"@, 36int, 44int, FieldShape::Unsigned),
            ("number_of_grains_table_entries"@, 44int, 48int, FieldShape::Unsigned),
            ("secondary_grain_directory_sector_number"@, 48int, 56int, FieldShape::Unsigned),
            ("grain_directory_sector_number"@, 56int, 64int, FieldShape::Unsigned),
            ("metadata_number_of_sectors"@, 64int, 72int, FieldShape::Unsigned),
            ("is_dirty"@, 72int, 73int, FieldShape::Unsigned),
            ("eol1"@, 73int, 74int, FieldShape::Bytes),
            ("non_eol"@, 74int, 75int, FieldShape::Bytes),
            ("eol2"@, 75int, 77int, FieldShape::Bytes),
            ("compression_method"@, 77int, 79int, FieldShape::Unsigned),
            ("padding"@, 79int, 512int, FieldShape::Bytes),
        ],
{
    reveal_with_fuel(field_layout, 18);
    reveal_with_fuel(SNode::fields_size, 14);
    assert(field_layout(spec_vmdk_header().kind->Struct_0, 0, 0).take(17) =~= seq![
        ("signature"@, 0int, 4int, FieldShape::Bytes),
        ("version"@, 4int, 8int, FieldShape::Unsigned),
        ("flags"@, 8int, 12int, FieldShape::Unsigned),
        ("maximum_data_number_of_sectors"@, 12int, 20int, FieldShape::Unsigned),
        ("grain_number_of_sectors"@, 20int, 28int, FieldShape::Unsigned),
        ("descriptor_sector_number"@, 28int, 36int, FieldShape::Unsigned),
        ("descriptor_number_of_sectors"@, 36int, 44int, FieldShape::Unsigned),
        ("number_of_grains_table_entries"@, 44int, 48int, FieldShape::Unsigned),
        ("secondary_grain_directory_sector_number"@, 48int, 56int, FieldShape::Unsigned),
        ("grain_directory_sector_number"@, 56int, 64int, FieldShape::Unsigned),
        ("metadata_number_of_sectors"@, 64int, 72int, FieldShape::Unsigned),
        ("is_dirty"@, 72int, 73int, FieldShape::Unsigned),
        ("eol1"@, 73int, 74int, FieldShape::Bytes),
        ("non_eol"@, 74int, 75int, FieldShape::Bytes),
        ("eol2"@, 75int, 77int, FieldShape::Bytes),
        ("compression_method"@, 77int, 79int, FieldShape::Unsigned),
        ("padding"@, 79int, 512int, FieldShape::Bytes),
    ]);
}

/// Where the data of an MFT attribute lies: a resident attribute's content starts `data_offset`
/// bytes after the start of the attribute, that is past the 16-byte attribute header and the
/// 8 bytes of resident fields, and is read as standard information (type 16), a file name
/// (type 48) or an index root (type 144); the rest of a resident attribute is what its `size`
/// leaves after `data_offset + data_size`, and the rest of a nonresident one what its `size`
/// leaves after the 16-byte header and the 56 bytes of nonresident fields.
#[verifier::spinoff_prover]
#[verifier::rlimit(50)]
pub proof fn lemma_mft_attribute_data()
    ensures
        ({
            let attribute = spec_mft_entry().kind->Struct_0[1].1.kind->RepeatWhile_0.kind->Struct_0;
            let data = attribute[7].1;
            let resident = data.kind->Switch_1[0].1.kind->Struct_0;
            let nonresident = data.kind->Switch_2.kind->Struct_0;
            let header_end = field_layout(attribute, 0, 0)[6].2;
            &&& attribute[7].0 == "data"@
            &&& data.kind->Switch_0 == SExpr::variable(attribute[2].0)
            &&& attribute[2].0 == "nonresident"@
            &&& data.kind->Switch_1[0].0 == SExpr::constant_int(0)
            &&& header_end == 16
            &&& resident[4].0 == "content"@
            &&& resident[4].1.offset == Some(
                SExpr::bin_op(
                    SExpr::offset(),
                    BinOp::Add,
                    SExpr::bin_op(
                        SExpr::variable(resident[1].0),
                        BinOp::Sub,
                        SExpr::constant_int(header_end + field_layout(resident, 0, 0)[3].2),
                    ),
                ),
            )
            &&& resident[1].0 == "data_offset"@
            &&& resident[0].0 == "data_size"@
            &&& resident[4].1.kind->Switch_0 == SExpr::field_access(SExpr::parent(), attribute[0].0)
            &&& attribute[0].0 == "type"@
            &&& resident[4].1.kind->Switch_1[0].0 == SExpr::constant_int(16)
            &&& resident[4].1.kind->Switch_1[0].1 == SNode::named("mft_attr_stdinfo"@)
            &&& resident[4].1.kind->Switch_1[1].0 == SExpr::constant_int(48)
            &&& resident[4].1.kind->Switch_1[2].0 == SExpr::constant_int(144)
            &&& resident[4].1.kind->Switch_1[2].1 == SNode::named("mft_index_root"@)
            &&& resident[4].1.kind->Switch_2 == SNode::fixed_length(SExpr::variable(resident[0].0))
            &&& resident[5].1 == SNode::fixed_length(
                SExpr::bin_op(
                    SExpr::field_access(SExpr::parent(), attribute[1].0),
                    BinOp::Sub,
                    SExpr::bin_op(SExpr::variable(resident[1].0), BinOp::Add, SExpr::variable(resident[0].0)),
                ),
            )
            &&& attribute[1].0 == "size"@
            &&& nonresident[9].1 == SNode::fixed_length(
                SExpr::bin_op(
                    SExpr::field_access(SExpr::parent(), attribute[1].0),
                    BinOp::Sub,
                    SExpr::constant_int(header_end + field_layout(nonresident, 0, 0)[8].2),
                ),
            )
        }),
{
    lemma_mft_entry_layout();
    let attribute = spec_mft_entry().kind->Struct_0[1].1.kind->RepeatWhile_0.kind->Struct_0;
    let data = attribute[7].1;
    let resident = data.kind->Switch_1[0].1.kind->Struct_0;
    let nonresident = data.kind->Switch_2.kind->Struct_0;
    lemma_field_layout_len(attribute, 0, 0);
    lemma_field_layout_len(resident, 0, 0);
    lemma_field_layout_len(nonresident, 0, 0);
    assert(field_layout(attribute, 0, 0).take(7)[6] == field_layout(attribute, 0, 0)[6]);
    assert(field_layout(resident, 0, 0).take(4)[3] == field_layout(resident, 0, 0)[3]);
    assert(field_layout(nonresident, 0, 0).take(9)[8] == field_layout(nonresident, 0, 0)[8]);
}

/// Where the parts of the built-in formats that are placed or repeated by values read from the
/// data begin and end: an MFT entry's attributes start at the header's `first_attribute` and run
/// up to the `0xFFFFFFFF` end marker; an index entry's values start at the node header's
/// `index_values_offset`, counted from the node header, which follows the 24-byte entry header;
/// the datums of an FVE metadata block run up to the dataset's `size`, counted from the dataset,
/// which follows the 64-byte block header; a PE file has as many sections as its header's
/// `num_of_sections`, each with its content read at `pointer_to_raw_data`; and the VHDX tables
/// have as many entries as their `number_of_entries`.
#[verifier::spinoff_prover]
#[verifier::rlimit(50)]
pub proof fn lemma_computed_placements()
    ensures
        ({
            let entry = spec_mft_entry().kind->Struct_0;
            &&& entry[1].0 == "attributes"@
            &&& entry[1].1.offset == Some(SExpr::field_access(SExpr::variable(entry[0].0), "first_attribute"@))
            &&& entry[0].1.kind->Struct_0[6].0 == "first_attribute"@
            &&& entry[1].1.kind->RepeatWhile_1 == SExpr::un_op(
                UnOp::Not,
                SExpr::bin_op(
                    SExpr::parse_at(SNode::fixed_length(SExpr::constant_int(4))),
                    BinOp::Eq,
                    SExpr::constant_bytes(seq![0xffu8, 0xff, 0xff, 0xff]),
                ),
            )
        }),
        ({
            let index = spec_mft_index_entry().kind->Struct_0;
            &&& index[5].0 == "index_node_header"@
            &&& field_layout(index, 0, 0)[4].2 == 24
            &&& index[6].0 == "values"@
            &&& index[6].1.offset == Some(
                SExpr::bin_op(
                    SExpr::field_access(SExpr::variable(index[5].0), "index_values_offset"@),
                    BinOp::Add,
                    SExpr::constant_int(field_layout(index, 0, 0)[4].2),
                ),
            )
        }),
        ({
            let block = spec_bitlocker_information().kind->Struct_0;
            &&& block[10].0 == "dataset"@
            &&& field_layout(block, 0, 0)[10].1 == 64
            &&& block[11].0 == "datums"@
            &&& block[11].1.kind->RepeatWhile_1 == SExpr::bin_op(
                SExpr::offset(),
                BinOp::Lt,
                SExpr::bin_op(
                    SExpr::field_access(SExpr::variable(block[10].0), "size"@),
                    BinOp::Add,
                    SExpr::constant_int(field_layout(block, 0, 0)[10].1),
                ),
            )
        }),
        ({
            let pe = spec_pe_file().kind->Struct_0;
            let section = pe[3].1.kind->RepeatCount_0.kind->Struct_0;
            &&& pe[3].1.kind->RepeatCount_1 == SExpr::field_access(
                SExpr::variable(pe[1].0),
                "num_of_sections"@,
            )
            &&& section[10].0 == "content"@
            &&& section[10].1 == SNode::elsewhere(
                SNode::fixed_length(SExpr::variable(section[3].0)).at(SExpr::variable(section[4].0)),
            )
            &&& section[3].0 == "size_of_raw_data"@
            &&& section[4].0 == "pointer_to_raw_data"@
        }),
        spec_vhdx_region_table().kind->Struct_0[4].1.kind->RepeatCount_1 == SExpr::variable(
            spec_vhdx_region_table().kind->Struct_0[2].0,
        ),
        spec_vhdx_region_table().kind->Struct_0[2].0 == "number_of_entries"@,
        spec_vhdx_metadata_table().kind->Struct_0[4].1.kind->RepeatCount_1 == SExpr::variable(
            spec_vhdx_metadata_table().kind->Struct_0[2].0,
        ),
        spec_vhdx_metadata_table().kind->Struct_0[2].0 == "number_of_entries"@,
{
    lemma_mft_index_entry_layout();
    lemma_bitlocker_information_layout();
    let index = spec_mft_index_entry().kind->Struct_0;
    lemma_field_layout_len(index, 0, 0);
    assert(field_layout(index, 0, 0).take(5)[4] == field_layout(index, 0, 0)[4]);
    let block = spec_bitlocker_information().kind->Struct_0;
    lemma_field_layout_len(block, 0, 0);
    assert(field_layout(block, 0, 0).take(11)[10] == field_layout(block, 0, 0)[10]);
    assert(spec_mft_entry().kind->Struct_0[1].1.kind->RepeatWhile_1->UnOp_0->BinOp_2->ConstantBytes_0
        =~= seq![0xffu8, 0xff, 0xff, 0xff]);
}

/// The PE description: the PE header starts where the MZ header's `new_exe_header` says and is
/// 24 bytes long (the 4-byte signature and the 20-byte COFF header), and the section table
/// starts right after it and the optional header, at
/// `size_of_optional_header + (24 + new_exe_header)`; each section entry is 40 bytes long.
pub proof fn lemma_pe_section_table_offset()
    ensures
        ({
            let fields = spec_pe_file().kind->Struct_0;
            let new_exe_header = SExpr::field_access(
                SExpr::variable("mz_header"@),
                "new_exe_header"@,
            );
            &&& fields[1].0 == "pe_header"@
            &&& fields[1].1.offset == Some(new_exe_header)
            &&& fields[1].1.fixed_size() == 24
            &&& fields[1].1.kind->Struct_0[6].0 == "size_of_optional_header"@
            &&& fields[3].0 == "sections"@
            &&& fields[3].1.offset == Some(
                SExpr::bin_op(
                    SExpr::field_access(SExpr::variable("pe_header"@), "size_of_optional_header"@),
                    BinOp::Add,
                    SExpr::bin_op(SExpr::constant_int(fields[1].1.fixed_size()), BinOp::Add, new_exe_header),
                ),
            )
            &&& fields[3].1.kind->RepeatCount_0.fixed_size() - fields[3].1.kind->RepeatCount_0.kind->Struct_0[10].1.fixed_size() == 40
        }),
{
    let pe = spec_pe_file().kind->Struct_0[1].1.kind->Struct_0;
    reveal_with_fuel(SNode::fields_size, 9);
    assert(SNode::fields_size(pe, 0) == 24);
    let section = spec_pe_file().kind->Struct_0[3].1.kind->RepeatCount_0.kind->Struct_0;
    reveal_with_fuel(SNode::fields_size, 12);
    assert(SNode::fields_size(section, 0) - section[10].1.fixed_size() == 40);
}

/// The descriptions of the standard information and the index node header of NTFS, of the NTFS
/// and BitLocker boot headers, of the VMDK header and of the VHDX region and metadata tables read
/// a fixed amount, or a fixed amount as often as a field before says, so parsing them ends in
/// every context whose start leaves room for their offsets.
pub proof fn lemma_fixed_descriptions()
    ensures
        spec_mft_standard_information().is_fixed(),
        spec_mft_index_node_header().is_fixed(),
        spec_ntfs_header().is_fixed(),
        spec_bitlocker_header().is_fixed(),
        spec_vmdk_header().is_fixed(),
        spec_vhdx_region_table().is_fixed(),
        spec_vhdx_metadata_table().is_fixed(),
{
    assert(spec_mft_standard_information().is_fixed()) by {
        let fields = spec_mft_standard_information().kind->Struct_0;
        lemma_fixed_fields(fields, 0);
        assert forall|j: int| 0 <= j < fields.len() implies #[trigger] SNode::fixed_field(fields, j) by {
            if j == 0 {} else if j == 1 {} else if j == 2 {} else if j == 3 {} else if j == 4 {} else if j == 5 {} else if j == 6 {} else if j == 7 {} else if j == 8 {} else if j == 9 {} else if j == 10 {} else if j == 11 {}
        }
    }
    assert(spec_mft_index_node_header().is_fixed()) by {
        let fields = spec_mft_index_node_header().kind->Struct_0;
        lemma_fixed_fields(fields, 0);
        assert forall|j: int| 0 <= j < fields.len() implies #[trigger] SNode::fixed_field(fields, j) by {
            if j == 0 {} else if j == 1 {} else if j == 2 {} else if j == 3 {}
        }
    }
    assert(spec_ntfs_header().is_fixed()) by {
        let fields = spec_ntfs_header().kind->Struct_0;
        lemma_fixed_fields(fields, 0);
        assert forall|j: int| 0 <= j < fields.len() implies #[trigger] SNode::fixed_field(fields, j) by {
            if j == 0 {} else if j == 1 {} else if j == 2 {} else if j == 3 {} else if j == 4 {} else if j == 5 {} else if j == 6 {} else if j == 7 {} else if j == 8 {} else if j == 9 {} else if j == 10 {}
        }
    }
    assert(spec_bitlocker_header().is_fixed()) by {
        let fields = spec_bitlocker_header().kind->Struct_0;
        lemma_fixed_fields(fields, 0);
        assert forall|j: int| 0 <= j < fields.len() implies #[trigger] SNode::fixed_field(fields, j) by {
            if j == 0 {} else if j == 1 {} else if j == 2 {} else if j == 3 {} else if j == 4 {} else if j == 5 {} else if j == 6 {} else if j == 7 {} else if j == 8 {} else if j == 9 {
                assert(fields[9].1.kind->RepeatCount_0.is_fixed());
            } else if j == 10 {
                assert(fields[10].1.kind->RepeatCount_0.is_fixed());
            } else if j == 11 {}
        }
    }
    assert(spec_vmdk_header().is_fixed()) by {
        let fields = spec_vmdk_header().kind->Struct_0;
        lemma_fixed_fields(fields, 0);
        assert forall|j: int| 0 <= j < fields.len() implies #[trigger] SNode::fixed_field(fields, j) by {
            if j == 0 {} else if j == 1 {} else if j == 2 {} else if j == 3 {} else if j == 4 {} else if j == 5 {} else if j == 6 {} else if j == 7 {} else if j == 8 {} else if j == 9 {} else if j == 10 {} else if j == 11 {} else if j == 12 {} else if j == 13 {} else if j == 14 {} else if j == 15 {} else if j == 16 {}
        }
    }
    assert(spec_vhdx_region_table().is_fixed()) by {
        let fields = spec_vhdx_region_table().kind->Struct_0;
        lemma_fixed_fields(fields, 0);
        assert forall|j: int| 0 <= j < fields.len() implies #[trigger] SNode::fixed_field(fields, j) by {
            if j == 0 {} else if j == 1 {} else if j == 2 {} else if j == 3 {} else if j == 4 {
                reveal_strlit("signature");
                reveal_strlit("checksum");
                reveal_strlit("number_of_entries");
                assert(fields[0].0 == "signature"@ && fields[1].0 == "checksum"@);
                assert(fields[2].0 == "number_of_entries"@);
                assert("signature"@.len() == 9 && "checksum"@.len() == 8);
                assert("number_of_entries"@.len() == 17);
                assert(fields[0].0 != fields[2].0 && fields[1].0 != fields[2].0);
                assert(counter_before(fields, 4, fields[2].0));
                let inner = fields[4].1.kind->RepeatCount_0.kind->Struct_0;
                lemma_fixed_fields(inner, 0);
                assert forall|k: int| 0 <= k < inner.len() implies #[trigger] SNode::fixed_field(inner, k) by {
                    if k == 0 {} else if k == 1 {} else if k == 2 {} else if k == 3 {}
                }
                assert(fields[4].1.kind->RepeatCount_0.is_fixed());
            } else if j == 5 {} else if j == 6 {} else if j == 7 {} else if j == 8 {} else if j == 9 {}
        }
    }
    assert(spec_vhdx_metadata_table().is_fixed()) by {
        let fields = spec_vhdx_metadata_table().kind->Struct_0;
        lemma_fixed_fields(fields, 0);
        assert forall|j: int| 0 <= j < fields.len() implies #[trigger] SNode::fixed_field(fields, j) by {
            if j == 0 {} else if j == 1 {} else if j == 2 {} else if j == 3 {} else if j == 4 {
                reveal_strlit("signature");
                reveal_strlit("unknown");
                reveal_strlit("number_of_entries");
                assert(fields[0].0 == "signature"@ && fields[1].0 == "unknown"@);
                assert(fields[2].0 == "number_of_entries"@);
                assert("signature"@.len() == 9 && "unknown"@.len() == 7);
                assert("number_of_entries"@.len() == 17);
                assert(fields[0].0 != fields[2].0 && fields[1].0 != fields[2].0);
                assert(counter_before(fields, 4, fields[2].0));
                let inner = fields[4].1.kind->RepeatCount_0.kind->Struct_0;
                lemma_fixed_fields(inner, 0);
                assert forall|k: int| 0 <= k < inner.len() implies #[trigger] SNode::fixed_field(inner, k) by {
                    if k == 0 {} else if k == 1 {} else if k == 2 {} else if k == 3 {}
                }
                assert(fields[4].1.kind->RepeatCount_0.is_fixed());
            } else if j == 5 {} else if j == 6 {} else if j == 7 {} else if j == 8 {} else if j == 9 {}
        }
    }
}

} // verus!
