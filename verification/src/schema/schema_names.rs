//! The names of the types of the schema of schemas: each is an identifier,
//! and none stands twice. The names of one kind of type start with the same
//! two characters, which no other kind starts with.

use crate::identifier::{identifier_text_valid, lemma_snake_case_is_identifier};
use crate::schema::container::SchemaBuilder;
use crate::schema::schema_schema::{
    admits, any_type_names, kind_count, kind_group, kind_start, kinds_from, schema_names,
};
use vstd::prelude::*;
use vstd::string::*;

verus! {

/// The place of the kind of type that a name belongs to by its first two
/// characters; behind the kinds come `any_type` and the names of the schema
/// itself.
pub open spec fn head_rank(name: Seq<char>) -> int {
    if name.len() < 2 {
        -1
    } else if name[0] == 'b' && name[1] == 'o' {
        0
    } else if name[0] == 'o' && name[1] == 'p' {
        1
    } else if name[0] == 's' && name[1] == 'e' {
        2
    } else if name[0] == 'b' && name[1] == 'i' {
        3
    } else if name[0] == 'u' && name[1] == 'n' {
        4
    } else if name[0] == 'u' && name[1] == 'i' {
        5
    } else if name[0] == 's' && name[1] == 'i' {
        6
    } else if name[0] == 'f' && name[1] == '3' {
        7
    } else if name[0] == 'f' && name[1] == '6' {
        8
    } else if name[0] == 'e' && name[1] == 'n' {
        9
    } else if name[0] == 's' && name[1] == 't' {
        10
    } else if name[0] == 'm' && name[1] == 'a' {
        11
    } else if name[0] == 'r' && name[1] == 'o' {
        12
    } else if name[0] == 'k' && name[1] == 'e' {
        13
    } else if name[0] == 'a' && name[1] == 's' {
        14
    } else if name[0] == 'u' && name[1] == 'u' {
        15
    } else if name[0] == 'r' && name[1] == 'a' {
        16
    } else if name[0] == 'd' && name[1] == 'e' {
        17
    } else if name[0] == 'a' && name[1] == 'n' {
        18
    } else if name[0] == 's' && name[1] == 'c' {
        19
    } else {
        -1
    }
}

/// Whether every name is an identifier, none stands twice, and all belong
/// to the kinds from `low` up to `high`.
pub open spec fn sound_names(names: Seq<Seq<char>>, low: int, high: int) -> bool {
    &&& forall|i: int| 0 <= i < names.len() ==> identifier_text_valid(#[trigger] names[i])
    &&& forall|i: int| 0 <= i < names.len() ==> low <= head_rank(#[trigger] names[i]) <= high
    &&& forall|i: int, j: int|
        0 <= i < j < names.len() ==> #[trigger] names[i] != #[trigger] names[j]
}

/// Sound names of some kinds, followed by sound names of later kinds, are
/// sound names.
pub proof fn lemma_sound_names_joined(a: Seq<Seq<char>>, b: Seq<Seq<char>>, low: int, mid: int, high: int)
    requires
        sound_names(a, low, mid),
        sound_names(b, mid + 1, high),
        low <= mid <= high,
    ensures
        sound_names(a + b, low, high),
{
    let all = a + b;
    assert forall|i: int, j: int| 0 <= i < j < all.len() implies #[trigger] all[i]
        != #[trigger] all[j] by {
        if j < a.len() {
            assert(all[i] == a[i] && all[j] == a[j]);
        } else if i >= a.len() {
            assert(all[i] == b[i - a.len()] && all[j] == b[j - a.len()]);
        } else {
            assert(all[i] == a[i] && all[j] == b[j - a.len()]);
            assert(head_rank(a[i]) <= mid < head_rank(b[j - a.len()]));
        }
    }
    assert forall|i: int| 0 <= i < all.len() implies identifier_text_valid(#[trigger] all[i])
        && low <= head_rank(all[i]) <= high by {
        if i < a.len() {
            assert(all[i] == a[i]);
            assert(identifier_text_valid(a[i]));
            assert(low <= head_rank(a[i]) <= mid);
        } else {
            assert(all[i] == b[i - a.len()]);
            assert(identifier_text_valid(b[i - a.len()]));
            assert(mid + 1 <= head_rank(b[i - a.len()]) <= high);
        }
    }
}

/// The names of the kind `bool` are sound, and there are 3 of them.
pub proof fn lemma_names_bool()
    ensures
        kind_group(0).len() == 3,
        sound_names(kind_group(0), 0, 0),
{
    reveal_strlit("bool");
    reveal_strlit("_meta_text");
    reveal_strlit("bool_meta_text");
    reveal_strlit("_meta_maybe_text");
    reveal_strlit("bool_meta_maybe_text");
    assert("bool"@ + "_meta_text"@ =~= "bool_meta_text"@);
    assert("bool"@ + "_meta_maybe_text"@ =~= "bool_meta_maybe_text"@);
    lemma_snake_case_is_identifier("bool_meta_text"@);
    lemma_snake_case_is_identifier("bool_meta_maybe_text"@);
    lemma_snake_case_is_identifier("bool"@);
    let names = seq!["bool_meta_text"@, "bool_meta_maybe_text"@, "bool"@];
    assert(kind_group(0) =~= names);
}

/// The names of the kind `option` are sound, and there are 4 of them.
pub proof fn lemma_names_option()
    ensures
        kind_group(1).len() == 4,
        sound_names(kind_group(1), 1, 1),
{
    reveal_strlit("option");
    reveal_strlit("_meta_text");
    reveal_strlit("option_meta_text");
    reveal_strlit("_meta_maybe_text");
    reveal_strlit("option_meta_maybe_text");
    reveal_strlit("option_type");
    assert("option"@ + "_meta_text"@ =~= "option_meta_text"@);
    assert("option"@ + "_meta_maybe_text"@ =~= "option_meta_maybe_text"@);
    lemma_snake_case_is_identifier("option_meta_text"@);
    lemma_snake_case_is_identifier("option_meta_maybe_text"@);
    lemma_snake_case_is_identifier("option_type"@);
    lemma_snake_case_is_identifier("option"@);
    let names = seq!["option_meta_text"@, "option_meta_maybe_text"@, "option_type"@, "option"@];
    assert(kind_group(1) =~= names);
}

/// The names of the kind `seq` are sound, and there are 12 of them.
pub proof fn lemma_names_seq()
    ensures
        kind_group(2).len() == 12,
        sound_names(kind_group(2), 2, 2),
{
    reveal_strlit("seq");
    reveal_strlit("_meta_text");
    reveal_strlit("seq_meta_text");
    reveal_strlit("_meta_maybe_text");
    reveal_strlit("seq_meta_maybe_text");
    reveal_strlit("seq_element");
    reveal_strlit("seq_length");
    reveal_strlit("_end");
    reveal_strlit("seq_length_end");
    reveal_strlit("seq_direction");
    reveal_strlit("seq_unique");
    reveal_strlit("seq_sorting");
    reveal_strlit("seq_ordering");
    reveal_strlit("seq_multiple_of_number");
    reveal_strlit("seq_multiple_of");
    assert("seq"@ + "_meta_text"@ =~= "seq_meta_text"@);
    assert("seq"@ + "_meta_maybe_text"@ =~= "seq_meta_maybe_text"@);
    assert("seq_length"@ + "_end"@ =~= "seq_length_end"@);
    lemma_snake_case_is_identifier("seq_meta_text"@);
    lemma_snake_case_is_identifier("seq_meta_maybe_text"@);
    lemma_snake_case_is_identifier("seq_element"@);
    lemma_snake_case_is_identifier("seq_length_end"@);
    lemma_snake_case_is_identifier("seq_length"@);
    lemma_snake_case_is_identifier("seq_direction"@);
    lemma_snake_case_is_identifier("seq_unique"@);
    lemma_snake_case_is_identifier("seq_sorting"@);
    lemma_snake_case_is_identifier("seq_ordering"@);
    lemma_snake_case_is_identifier("seq_multiple_of_number"@);
    lemma_snake_case_is_identifier("seq_multiple_of"@);
    lemma_snake_case_is_identifier("seq"@);
    assert("seq_meta_text"@[4] != "seq_direction"@[4]);
    assert("seq_element"@[4] != "seq_sorting"@[4]);
    assert("seq_length"@[4] != "seq_unique"@[4]);
    let names = seq!["seq_meta_text"@, "seq_meta_maybe_text"@, "seq_element"@, "seq_length_end"@, "seq_length"@, "seq_direction"@, "seq_unique"@, "seq_sorting"@, "seq_ordering"@, "seq_multiple_of_number"@, "seq_multiple_of"@, "seq"@];
    assert(kind_group(2) =~= names);
}

/// The names of the kind `binary` are sound, and there are 5 of them.
pub proof fn lemma_names_binary()
    ensures
        kind_group(3).len() == 5,
        sound_names(kind_group(3), 3, 3),
{
    reveal_strlit("binary");
    reveal_strlit("_meta_text");
    reveal_strlit("binary_meta_text");
    reveal_strlit("_meta_maybe_text");
    reveal_strlit("binary_meta_maybe_text");
    reveal_strlit("binary_length");
    reveal_strlit("_end");
    reveal_strlit("binary_length_end");
    assert("binary"@ + "_meta_text"@ =~= "binary_meta_text"@);
    assert("binary"@ + "_meta_maybe_text"@ =~= "binary_meta_maybe_text"@);
    assert("binary_length"@ + "_end"@ =~= "binary_length_end"@);
    lemma_snake_case_is_identifier("binary_meta_text"@);
    lemma_snake_case_is_identifier("binary_meta_maybe_text"@);
    lemma_snake_case_is_identifier("binary_length_end"@);
    lemma_snake_case_is_identifier("binary_length"@);
    lemma_snake_case_is_identifier("binary"@);
    let names = seq!["binary_meta_text"@, "binary_meta_maybe_text"@, "binary_length_end"@, "binary_length"@, "binary"@];
    assert(kind_group(3) =~= names);
}

/// The names of the kind `unicode` are sound, and there are 6 of them.
pub proof fn lemma_names_unicode()
    ensures
        kind_group(4).len() == 6,
        sound_names(kind_group(4), 4, 4),
{
    reveal_strlit("unicode");
    reveal_strlit("_meta_text");
    reveal_strlit("unicode_meta_text");
    reveal_strlit("_meta_maybe_text");
    reveal_strlit("unicode_meta_maybe_text");
    reveal_strlit("unicode_length");
    reveal_strlit("_end");
    reveal_strlit("unicode_length_end");
    reveal_strlit("unicode_length_type");
    assert("unicode"@ + "_meta_text"@ =~= "unicode_meta_text"@);
    assert("unicode"@ + "_meta_maybe_text"@ =~= "unicode_meta_maybe_text"@);
    assert("unicode_length"@ + "_end"@ =~= "unicode_length_end"@);
    lemma_snake_case_is_identifier("unicode_meta_text"@);
    lemma_snake_case_is_identifier("unicode_meta_maybe_text"@);
    lemma_snake_case_is_identifier("unicode_length_end"@);
    lemma_snake_case_is_identifier("unicode_length"@);
    lemma_snake_case_is_identifier("unicode_length_type"@);
    lemma_snake_case_is_identifier("unicode"@);
    let names = seq!["unicode_meta_text"@, "unicode_meta_maybe_text"@, "unicode_length_end"@, "unicode_length"@, "unicode_length_type"@, "unicode"@];
    assert(kind_group(4) =~= names);
}

/// The names of the kind `uint` are sound, and there are 5 of them.
pub proof fn lemma_names_uint()
    ensures
        kind_group(5).len() == 5,
        sound_names(kind_group(5), 5, 5),
{
    reveal_strlit("uint");
    reveal_strlit("_meta_text");
    reveal_strlit("uint_meta_text");
    reveal_strlit("_meta_maybe_text");
    reveal_strlit("uint_meta_maybe_text");
    reveal_strlit("uint_range");
    reveal_strlit("_end");
    reveal_strlit("uint_range_end");
    assert("uint"@ + "_meta_text"@ =~= "uint_meta_text"@);
    assert("uint"@ + "_meta_maybe_text"@ =~= "uint_meta_maybe_text"@);
    assert("uint_range"@ + "_end"@ =~= "uint_range_end"@);
    lemma_snake_case_is_identifier("uint_meta_text"@);
    lemma_snake_case_is_identifier("uint_meta_maybe_text"@);
    lemma_snake_case_is_identifier("uint_range_end"@);
    lemma_snake_case_is_identifier("uint_range"@);
    lemma_snake_case_is_identifier("uint"@);
    assert("uint_meta_text"@[5] != "uint_range_end"@[5]);
    let names = seq!["uint_meta_text"@, "uint_meta_maybe_text"@, "uint_range_end"@, "uint_range"@, "uint"@];
    assert(kind_group(5) =~= names);
}

/// The names of the kind `sint` are sound, and there are 5 of them.
pub proof fn lemma_names_sint()
    ensures
        kind_group(6).len() == 5,
        sound_names(kind_group(6), 6, 6),
{
    reveal_strlit("sint");
    reveal_strlit("_meta_text");
    reveal_strlit("sint_meta_text");
    reveal_strlit("_meta_maybe_text");
    reveal_strlit("sint_meta_maybe_text");
    reveal_strlit("sint_range");
    reveal_strlit("_end");
    reveal_strlit("sint_range_end");
    assert("sint"@ + "_meta_text"@ =~= "sint_meta_text"@);
    assert("sint"@ + "_meta_maybe_text"@ =~= "sint_meta_maybe_text"@);
    assert("sint_range"@ + "_end"@ =~= "sint_range_end"@);
    lemma_snake_case_is_identifier("sint_meta_text"@);
    lemma_snake_case_is_identifier("sint_meta_maybe_text"@);
    lemma_snake_case_is_identifier("sint_range_end"@);
    lemma_snake_case_is_identifier("sint_range"@);
    lemma_snake_case_is_identifier("sint"@);
    assert("sint_meta_text"@[5] != "sint_range_end"@[5]);
    let names = seq!["sint_meta_text"@, "sint_meta_maybe_text"@, "sint_range_end"@, "sint_range"@, "sint"@];
    assert(kind_group(6) =~= names);
}

/// The names of the kind `f32` are sound, and there are 5 of them.
pub proof fn lemma_names_f32()
    ensures
        kind_group(7).len() == 5,
        sound_names(kind_group(7), 7, 7),
{
    reveal_strlit("f32");
    reveal_strlit("_meta_text");
    reveal_strlit("f32_meta_text");
    reveal_strlit("_meta_maybe_text");
    reveal_strlit("f32_meta_maybe_text");
    reveal_strlit("_number");
    reveal_strlit("f32_number");
    reveal_strlit("_flag");
    reveal_strlit("f32_flag");
    assert("f32"@ + "_meta_text"@ =~= "f32_meta_text"@);
    assert("f32"@ + "_meta_maybe_text"@ =~= "f32_meta_maybe_text"@);
    assert("f32"@ + "_number"@ =~= "f32_number"@);
    assert("f32"@ + "_flag"@ =~= "f32_flag"@);
    lemma_snake_case_is_identifier("f32_meta_text"@);
    lemma_snake_case_is_identifier("f32_meta_maybe_text"@);
    lemma_snake_case_is_identifier("f32_number"@);
    lemma_snake_case_is_identifier("f32_flag"@);
    lemma_snake_case_is_identifier("f32"@);
    let names = seq!["f32_meta_text"@, "f32_meta_maybe_text"@, "f32_number"@, "f32_flag"@, "f32"@];
    assert(kind_group(7) =~= names);
}

/// The names of the kind `f64` are sound, and there are 5 of them.
pub proof fn lemma_names_f64()
    ensures
        kind_group(8).len() == 5,
        sound_names(kind_group(8), 8, 8),
{
    reveal_strlit("f64");
    reveal_strlit("_meta_text");
    reveal_strlit("f64_meta_text");
    reveal_strlit("_meta_maybe_text");
    reveal_strlit("f64_meta_maybe_text");
    reveal_strlit("_number");
    reveal_strlit("f64_number");
    reveal_strlit("_flag");
    reveal_strlit("f64_flag");
    assert("f64"@ + "_meta_text"@ =~= "f64_meta_text"@);
    assert("f64"@ + "_meta_maybe_text"@ =~= "f64_meta_maybe_text"@);
    assert("f64"@ + "_number"@ =~= "f64_number"@);
    assert("f64"@ + "_flag"@ =~= "f64_flag"@);
    lemma_snake_case_is_identifier("f64_meta_text"@);
    lemma_snake_case_is_identifier("f64_meta_maybe_text"@);
    lemma_snake_case_is_identifier("f64_number"@);
    lemma_snake_case_is_identifier("f64_flag"@);
    lemma_snake_case_is_identifier("f64"@);
    let names = seq!["f64_meta_text"@, "f64_meta_maybe_text"@, "f64_number"@, "f64_flag"@, "f64"@];
    assert(kind_group(8) =~= names);
}

/// The names of the kind `enum` are sound, and there are 9 of them.
pub proof fn lemma_names_enum()
    ensures
        kind_group(9).len() == 9,
        sound_names(kind_group(9), 9, 9),
{
    reveal_strlit("enum");
    reveal_strlit("_meta_text");
    reveal_strlit("enum_meta_text");
    reveal_strlit("_meta_maybe_text");
    reveal_strlit("enum_meta_maybe_text");
    reveal_strlit("enum_name");
    reveal_strlit("_segment");
    reveal_strlit("enum_name_segment");
    reveal_strlit("enum_value");
    reveal_strlit("enum_values");
    reveal_strlit("enum_variant");
    reveal_strlit("enum_variants");
    assert("enum"@ + "_meta_text"@ =~= "enum_meta_text"@);
    assert("enum"@ + "_meta_maybe_text"@ =~= "enum_meta_maybe_text"@);
    assert("enum_name"@ + "_segment"@ =~= "enum_name_segment"@);
    lemma_snake_case_is_identifier("enum_meta_text"@);
    lemma_snake_case_is_identifier("enum_meta_maybe_text"@);
    lemma_snake_case_is_identifier("enum_name_segment"@);
    lemma_snake_case_is_identifier("enum_name"@);
    lemma_snake_case_is_identifier("enum_value"@);
    lemma_snake_case_is_identifier("enum_values"@);
    lemma_snake_case_is_identifier("enum_variant"@);
    lemma_snake_case_is_identifier("enum_variants"@);
    lemma_snake_case_is_identifier("enum"@);
    let names = seq!["enum_meta_text"@, "enum_meta_maybe_text"@, "enum_name_segment"@, "enum_name"@, "enum_value"@, "enum_values"@, "enum_variant"@, "enum_variants"@, "enum"@];
    assert(kind_group(9) =~= names);
}

/// The names of the kind `struct` are sound, and there are 8 of them.
pub proof fn lemma_names_struct()
    ensures
        kind_group(10).len() == 8,
        sound_names(kind_group(10), 10, 10),
{
    reveal_strlit("struct");
    reveal_strlit("_meta_text");
    reveal_strlit("struct_meta_text");
    reveal_strlit("_meta_maybe_text");
    reveal_strlit("struct_meta_maybe_text");
    reveal_strlit("struct_name");
    reveal_strlit("_segment");
    reveal_strlit("struct_name_segment");
    reveal_strlit("struct_field_type");
    reveal_strlit("struct_field");
    reveal_strlit("struct_fields");
    assert("struct"@ + "_meta_text"@ =~= "struct_meta_text"@);
    assert("struct"@ + "_meta_maybe_text"@ =~= "struct_meta_maybe_text"@);
    assert("struct_name"@ + "_segment"@ =~= "struct_name_segment"@);
    lemma_snake_case_is_identifier("struct_meta_text"@);
    lemma_snake_case_is_identifier("struct_meta_maybe_text"@);
    lemma_snake_case_is_identifier("struct_name_segment"@);
    lemma_snake_case_is_identifier("struct_name"@);
    lemma_snake_case_is_identifier("struct_field_type"@);
    lemma_snake_case_is_identifier("struct_field"@);
    lemma_snake_case_is_identifier("struct_fields"@);
    lemma_snake_case_is_identifier("struct"@);
    let names = seq!["struct_meta_text"@, "struct_meta_maybe_text"@, "struct_name_segment"@, "struct_name"@, "struct_field_type"@, "struct_field"@, "struct_fields"@, "struct"@];
    assert(kind_group(10) =~= names);
}

/// The names of the kind `map` are sound, and there are 9 of them.
pub proof fn lemma_names_map()
    ensures
        kind_group(11).len() == 9,
        sound_names(kind_group(11), 11, 11),
{
    reveal_strlit("map");
    reveal_strlit("_meta_text");
    reveal_strlit("map_meta_text");
    reveal_strlit("_meta_maybe_text");
    reveal_strlit("map_meta_maybe_text");
    reveal_strlit("map_key");
    reveal_strlit("map_value");
    reveal_strlit("map_sorting");
    reveal_strlit("map_length");
    reveal_strlit("_end");
    reveal_strlit("map_length_end");
    reveal_strlit("map_anchors");
    assert("map"@ + "_meta_text"@ =~= "map_meta_text"@);
    assert("map"@ + "_meta_maybe_text"@ =~= "map_meta_maybe_text"@);
    assert("map_length"@ + "_end"@ =~= "map_length_end"@);
    lemma_snake_case_is_identifier("map_meta_text"@);
    lemma_snake_case_is_identifier("map_meta_maybe_text"@);
    lemma_snake_case_is_identifier("map_key"@);
    lemma_snake_case_is_identifier("map_value"@);
    lemma_snake_case_is_identifier("map_sorting"@);
    lemma_snake_case_is_identifier("map_length_end"@);
    lemma_snake_case_is_identifier("map_length"@);
    lemma_snake_case_is_identifier("map_anchors"@);
    lemma_snake_case_is_identifier("map"@);
    assert("map_sorting"@[4] != "map_anchors"@[4]);
    let names = seq!["map_meta_text"@, "map_meta_maybe_text"@, "map_key"@, "map_value"@, "map_sorting"@, "map_length_end"@, "map_length"@, "map_anchors"@, "map"@];
    assert(kind_group(11) =~= names);
}

/// The names of the kind `root_map` are sound, and there are 9 of them.
pub proof fn lemma_names_root_map()
    ensures
        kind_group(12).len() == 9,
        sound_names(kind_group(12), 12, 12),
{
    reveal_strlit("root_map");
    reveal_strlit("_meta_text");
    reveal_strlit("root_map_meta_text");
    reveal_strlit("_meta_maybe_text");
    reveal_strlit("root_map_meta_maybe_text");
    reveal_strlit("root_map_root");
    reveal_strlit("root_map_key");
    reveal_strlit("root_map_value");
    reveal_strlit("root_map_sorting");
    reveal_strlit("root_map_length");
    reveal_strlit("_end");
    reveal_strlit("root_map_length_end");
    assert("root_map"@ + "_meta_text"@ =~= "root_map_meta_text"@);
    assert("root_map"@ + "_meta_maybe_text"@ =~= "root_map_meta_maybe_text"@);
    assert("root_map_length"@ + "_end"@ =~= "root_map_length_end"@);
    lemma_snake_case_is_identifier("root_map_meta_text"@);
    lemma_snake_case_is_identifier("root_map_meta_maybe_text"@);
    lemma_snake_case_is_identifier("root_map_root"@);
    lemma_snake_case_is_identifier("root_map_key"@);
    lemma_snake_case_is_identifier("root_map_value"@);
    lemma_snake_case_is_identifier("root_map_sorting"@);
    lemma_snake_case_is_identifier("root_map_length_end"@);
    lemma_snake_case_is_identifier("root_map_length"@);
    lemma_snake_case_is_identifier("root_map"@);
    let names = seq!["root_map_meta_text"@, "root_map_meta_maybe_text"@, "root_map_root"@, "root_map_key"@, "root_map_value"@, "root_map_sorting"@, "root_map_length_end"@, "root_map_length"@, "root_map"@];
    assert(kind_group(12) =~= names);
}

/// The names of the kind `key_ref` are sound, and there are 3 of them.
pub proof fn lemma_names_key_ref()
    ensures
        kind_group(13).len() == 3,
        sound_names(kind_group(13), 13, 13),
{
    reveal_strlit("key_ref");
    reveal_strlit("_meta_text");
    reveal_strlit("key_ref_meta_text");
    reveal_strlit("_meta_maybe_text");
    reveal_strlit("key_ref_meta_maybe_text");
    assert("key_ref"@ + "_meta_text"@ =~= "key_ref_meta_text"@);
    assert("key_ref"@ + "_meta_maybe_text"@ =~= "key_ref_meta_maybe_text"@);
    lemma_snake_case_is_identifier("key_ref_meta_text"@);
    lemma_snake_case_is_identifier("key_ref_meta_maybe_text"@);
    lemma_snake_case_is_identifier("key_ref"@);
    let names = seq!["key_ref_meta_text"@, "key_ref_meta_maybe_text"@, "key_ref"@];
    assert(kind_group(13) =~= names);
}

/// The names of the kind `ascii` are sound, and there are 7 of them.
pub proof fn lemma_names_ascii()
    ensures
        kind_group(14).len() == 7,
        sound_names(kind_group(14), 14, 14),
{
    reveal_strlit("ascii");
    reveal_strlit("_meta_text");
    reveal_strlit("ascii_meta_text");
    reveal_strlit("_meta_maybe_text");
    reveal_strlit("ascii_meta_maybe_text");
    reveal_strlit("ascii_length");
    reveal_strlit("_end");
    reveal_strlit("ascii_length_end");
    reveal_strlit("ascii_code");
    reveal_strlit("ascii_codes");
    assert("ascii"@ + "_meta_text"@ =~= "ascii_meta_text"@);
    assert("ascii"@ + "_meta_maybe_text"@ =~= "ascii_meta_maybe_text"@);
    assert("ascii_length"@ + "_end"@ =~= "ascii_length_end"@);
    lemma_snake_case_is_identifier("ascii_meta_text"@);
    lemma_snake_case_is_identifier("ascii_meta_maybe_text"@);
    lemma_snake_case_is_identifier("ascii_length_end"@);
    lemma_snake_case_is_identifier("ascii_length"@);
    lemma_snake_case_is_identifier("ascii_code"@);
    lemma_snake_case_is_identifier("ascii_codes"@);
    lemma_snake_case_is_identifier("ascii"@);
    let names = seq!["ascii_meta_text"@, "ascii_meta_maybe_text"@, "ascii_length_end"@, "ascii_length"@, "ascii_code"@, "ascii_codes"@, "ascii"@];
    assert(kind_group(14) =~= names);
}

/// The names of the kind `uuid` are sound, and there are 3 of them.
pub proof fn lemma_names_uuid()
    ensures
        kind_group(15).len() == 3,
        sound_names(kind_group(15), 15, 15),
{
    reveal_strlit("uuid");
    reveal_strlit("_meta_text");
    reveal_strlit("uuid_meta_text");
    reveal_strlit("_meta_maybe_text");
    reveal_strlit("uuid_meta_maybe_text");
    assert("uuid"@ + "_meta_text"@ =~= "uuid_meta_text"@);
    assert("uuid"@ + "_meta_maybe_text"@ =~= "uuid_meta_maybe_text"@);
    lemma_snake_case_is_identifier("uuid_meta_text"@);
    lemma_snake_case_is_identifier("uuid_meta_maybe_text"@);
    lemma_snake_case_is_identifier("uuid"@);
    let names = seq!["uuid_meta_text"@, "uuid_meta_maybe_text"@, "uuid"@];
    assert(kind_group(15) =~= names);
}

/// The names of the kind `range` are sound, and there are 6 of them.
pub proof fn lemma_names_range()
    ensures
        kind_group(16).len() == 6,
        sound_names(kind_group(16), 16, 16),
{
    reveal_strlit("range");
    reveal_strlit("_meta_text");
    reveal_strlit("range_meta_text");
    reveal_strlit("_meta_maybe_text");
    reveal_strlit("range_meta_maybe_text");
    reveal_strlit("range_element");
    reveal_strlit("range_inclusion");
    reveal_strlit("range_allow_empty");
    assert("range"@ + "_meta_text"@ =~= "range_meta_text"@);
    assert("range"@ + "_meta_maybe_text"@ =~= "range_meta_maybe_text"@);
    lemma_snake_case_is_identifier("range_meta_text"@);
    lemma_snake_case_is_identifier("range_meta_maybe_text"@);
    lemma_snake_case_is_identifier("range_element"@);
    lemma_snake_case_is_identifier("range_inclusion"@);
    lemma_snake_case_is_identifier("range_allow_empty"@);
    lemma_snake_case_is_identifier("range"@);
    assert("range_meta_text"@[6] != "range_inclusion"@[6]);
    let names = seq!["range_meta_text"@, "range_meta_maybe_text"@, "range_element"@, "range_inclusion"@, "range_allow_empty"@, "range"@];
    assert(kind_group(16) =~= names);
}

/// The names of the kind `decimal` are sound, and there are 7 of them.
pub proof fn lemma_names_decimal()
    ensures
        kind_group(17).len() == 7,
        sound_names(kind_group(17), 17, 17),
{
    reveal_strlit("decimal");
    reveal_strlit("_meta_text");
    reveal_strlit("decimal_meta_text");
    reveal_strlit("_meta_maybe_text");
    reveal_strlit("decimal_meta_maybe_text");
    reveal_strlit("decimal_coefficient");
    reveal_strlit("_end");
    reveal_strlit("decimal_coefficient_end");
    reveal_strlit("decimal_exponent");
    reveal_strlit("decimal_exponent_end");
    assert("decimal"@ + "_meta_text"@ =~= "decimal_meta_text"@);
    assert("decimal"@ + "_meta_maybe_text"@ =~= "decimal_meta_maybe_text"@);
    assert("decimal_coefficient"@ + "_end"@ =~= "decimal_coefficient_end"@);
    assert("decimal_exponent"@ + "_end"@ =~= "decimal_exponent_end"@);
    lemma_snake_case_is_identifier("decimal_meta_text"@);
    lemma_snake_case_is_identifier("decimal_meta_maybe_text"@);
    lemma_snake_case_is_identifier("decimal_coefficient_end"@);
    lemma_snake_case_is_identifier("decimal_coefficient"@);
    lemma_snake_case_is_identifier("decimal_exponent_end"@);
    lemma_snake_case_is_identifier("decimal_exponent"@);
    lemma_snake_case_is_identifier("decimal"@);
    assert("decimal_meta_maybe_text"@[8] != "decimal_coefficient_end"@[8]);
    let names = seq!["decimal_meta_text"@, "decimal_meta_maybe_text"@, "decimal_coefficient_end"@, "decimal_coefficient"@, "decimal_exponent_end"@, "decimal_exponent"@, "decimal"@];
    assert(kind_group(17) =~= names);
}

/// The names of every kind are sound, and there are 12 of them at most.
pub proof fn lemma_kind_group(k: int)
    requires
        0 <= k < kind_count(),
    ensures
        kind_group(k).len() <= 12,
        sound_names(kind_group(k), k, k),
{
    if k == 0 {
        lemma_names_bool();
    } else if k == 1 {
        lemma_names_option();
    } else if k == 2 {
        lemma_names_seq();
    } else if k == 3 {
        lemma_names_binary();
    } else if k == 4 {
        lemma_names_unicode();
    } else if k == 5 {
        lemma_names_uint();
    } else if k == 6 {
        lemma_names_sint();
    } else if k == 7 {
        lemma_names_f32();
    } else if k == 8 {
        lemma_names_f64();
    } else if k == 9 {
        lemma_names_enum();
    } else if k == 10 {
        lemma_names_struct();
    } else if k == 11 {
        lemma_names_map();
    } else if k == 12 {
        lemma_names_root_map();
    } else if k == 13 {
        lemma_names_key_ref();
    } else if k == 14 {
        lemma_names_ascii();
    } else if k == 15 {
        lemma_names_uuid();
    } else if k == 16 {
        lemma_names_range();
    } else {
        lemma_names_decimal();
    }
}

/// The names of the kinds from the `k`-th on and `any_type` are sound, and
/// there are 12 for each kind at most.
pub proof fn lemma_kinds_from(k: int)
    requires
        0 <= k <= kind_count(),
    ensures
        kinds_from(k).len() <= 12 * (kind_count() - k) + 1,
        sound_names(kinds_from(k), k, kind_count()),
    decreases kind_count() - k,
{
    if k < kind_count() {
        lemma_kind_group(k);
        lemma_kinds_from(k + 1);
        lemma_sound_names_joined(kind_group(k), kinds_from(k + 1), k, k, kind_count());
        assert(kinds_from(k) =~= kind_group(k) + kinds_from(k + 1));
    } else {
        reveal_strlit("any_type");
        lemma_snake_case_is_identifier("any_type"@);
    }
}

/// The number of the names of the types that describe all types.
pub proof fn lemma_kinds_count()
    ensures
        any_type_names().len() == kind_start(kind_count()) + 1,
{
    lemma_kinds_len(0);
}

/// The number of the names from the `k`-th kind on.
pub proof fn lemma_kinds_len(k: int)
    requires
        0 <= k <= kind_count(),
    ensures
        kinds_from(k).len() == kind_start(kind_count()) - kind_start(k) + 1,
    decreases kind_count() - k,
{
    if k < kind_count() {
        lemma_kinds_len(k + 1);
        lemma_kind_group_len(k);
    }
}

/// The number of the names of a kind.
pub proof fn lemma_kind_group_len(k: int)
    requires
        0 <= k < kind_count(),
    ensures
        kind_group(k).len() == kind_start(k + 1) - kind_start(k),
{
    if k == 0 {
        lemma_names_bool();
    } else if k == 1 {
        lemma_names_option();
    } else if k == 2 {
        lemma_names_seq();
    } else if k == 3 {
        lemma_names_binary();
    } else if k == 4 {
        lemma_names_unicode();
    } else if k == 5 {
        lemma_names_uint();
    } else if k == 6 {
        lemma_names_sint();
    } else if k == 7 {
        lemma_names_f32();
    } else if k == 8 {
        lemma_names_f64();
    } else if k == 9 {
        lemma_names_enum();
    } else if k == 10 {
        lemma_names_struct();
    } else if k == 11 {
        lemma_names_map();
    } else if k == 12 {
        lemma_names_root_map();
    } else if k == 13 {
        lemma_names_key_ref();
    } else if k == 14 {
        lemma_names_ascii();
    } else if k == 15 {
        lemma_names_uuid();
    } else if k == 16 {
        lemma_names_range();
    } else {
        lemma_names_decimal();
    }
}

/// The names of the schema of schemas are identifiers, and none stands
/// twice.
pub proof fn lemma_schema_names_sound()
    ensures
        sound_names(schema_names(), 0, kind_count() + 1),
        schema_names().len() == kind_start(kind_count()) + 7,
{
    lemma_kinds_count();
    reveal_strlit("schema_name");
    reveal_strlit("_segment");
    reveal_strlit("schema_name_segment");
    reveal_strlit("schema_name");
    reveal_strlit("schema_named_type");
    reveal_strlit("schema_type_index");
    reveal_strlit("schema_root");
    reveal_strlit("schema");
    assert("schema_name"@ + "_segment"@ =~= "schema_name_segment"@);
    lemma_snake_case_is_identifier("schema_name_segment"@);
    lemma_snake_case_is_identifier("schema_name"@);
    lemma_snake_case_is_identifier("schema_named_type"@);
    lemma_snake_case_is_identifier("schema_type_index"@);
    lemma_snake_case_is_identifier("schema_root"@);
    lemma_snake_case_is_identifier("schema"@);
    assert("schema_name"@[7] != "schema_root"@[7]);
    assert("schema_named_type"@[7] != "schema_type_index"@[7]);
    let own = seq!["schema_name_segment"@, "schema_name"@, "schema_named_type"@, "schema_type_index"@, "schema_root"@, "schema"@];
    assert(schema_names() =~= any_type_names() + own);
    lemma_kinds_from(0);
    lemma_sound_names_joined(any_type_names(), own, 0, kind_count(), kind_count() + 1);
}

/// An empty builder admits the names of the schema of schemas.
pub proof fn lemma_schema_names(builder: SchemaBuilder)
    requires
        builder.types@.len() == 0,
        builder.names@.len() == 0,
    ensures
        admits(builder, schema_names()),
{
    lemma_schema_names_sound();
    lemma_kinds_from(0);
}

} // verus!
