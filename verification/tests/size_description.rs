use wasm_bridge::size_description::{
    size_description_enum, size_description_struct, size_description_tuple,
    size_description_variant, LayoutError, SizeDescription, MAX_CASES,
};
use wasm_bridge::size_math::{checked_next_multiple_of, usize_max};
use wasm_bridge::size_description::{impl_module_name, next_multiple_of};

fn desc(alignment: usize, byte_size: usize, num_args: usize) -> SizeDescription {
    SizeDescription { alignment, byte_size, num_args }
}

#[test]
fn struct_of_u8_u32_u16_is_padded() {
    let fields = [desc(1, 1, 1), desc(4, 4, 1), desc(2, 2, 1)];
    let (module, d) = size_description_struct("Point", &fields).unwrap();
    assert_eq!(module, "impl_size_description_point");
    assert_eq!(d.alignment, 4);
    assert_eq!(d.byte_size, 12);
    assert_eq!(d.num_args, 3);
    assert_eq!(d.layout, vec![0, 1, 4, 8, 8, 10, 12]);
}

#[test]
fn struct_module_name_is_snake_case() {
    let (module, _) = size_description_struct("MyHTTPServer", &[desc(8, 8, 1)]).unwrap();
    assert_eq!(module, "impl_size_description_my_http_server");
    assert_eq!(impl_module_name("abc"), "impl_size_description_abc");
}

#[test]
fn empty_struct_has_no_size() {
    let (_, d) = size_description_struct("Unit", &[]).unwrap();
    assert_eq!(d.alignment, 1);
    assert_eq!(d.byte_size, 0);
    assert_eq!(d.num_args, 0);
    assert_eq!(d.layout, vec![0]);
}

#[test]
fn struct_size_rounds_to_alignment() {
    // u64 then u8: 9 bytes of data, padded to 16
    let (_, d) = size_description_struct("Pair", &[desc(8, 8, 1), desc(1, 1, 1)]).unwrap();
    assert_eq!(d.alignment, 8);
    assert_eq!(d.byte_size, 16);
    assert_eq!(d.layout, vec![0, 8, 8, 9, 16]);
}

#[test]
fn tuple_matches_struct() {
    let fields = [desc(2, 2, 1), desc(8, 8, 1), desc(1, 3, 2)];
    let t = size_description_tuple(&fields).unwrap();
    let (_, s) = size_description_struct("Same", &fields).unwrap();
    assert_eq!(t.alignment, s.alignment);
    assert_eq!(t.byte_size, s.byte_size);
    assert_eq!(t.num_args, s.num_args);
    assert_eq!(t.layout, s.layout);
    assert_eq!(t.layout, vec![0, 2, 8, 16, 16, 19, 24]);
    assert_eq!(t.num_args, 4);
}

#[test]
fn tuple_size_overflow_is_refused() {
    let fields = [desc(1, usize::MAX, 1), desc(2, 1, 1)];
    assert_eq!(size_description_tuple(&fields).unwrap_err(), LayoutError::Overflow);
    let fields = [desc(1, usize::MAX - 1, 1), desc(1, 1, 1)];
    assert_eq!(size_description_tuple(&fields).unwrap().byte_size, usize::MAX);
}

#[test]
fn struct_args_overflow_is_refused() {
    let fields = [desc(1, 1, usize::MAX), desc(1, 1, 1)];
    assert_eq!(size_description_struct("Big", &fields).unwrap_err(), LayoutError::Overflow);
}

#[test]
fn enum_is_one_byte() {
    let d = size_description_enum(3).unwrap();
    assert_eq!((d.alignment, d.byte_size, d.num_args), (1, 1, 1));
    assert_eq!(d.layout, vec![0, 1, 1]);
    assert!(size_description_enum(MAX_CASES).is_ok());
}

#[test]
fn enum_with_too_many_cases_is_refused() {
    let e = size_description_enum(257).unwrap_err();
    assert_eq!(e, LayoutError::TooManyEnumCases);
    assert_eq!(e.message(), "Enums with more than 256 values are not yet supported.");
}

#[test]
fn variant_leaves_room_for_largest_payload() {
    let cases = [None, Some(desc(4, 4, 1)), Some(desc(8, 8, 1)), Some(desc(1, 3, 3))];
    let d = size_description_variant(&cases).unwrap();
    assert_eq!(d.alignment, 8);
    assert_eq!(d.byte_size, 16);
    assert_eq!(d.num_args, 4);
    assert_eq!(d.layout, vec![0, 16, 16]);
}

#[test]
fn variant_without_payloads() {
    let d = size_description_variant(&[None, None]).unwrap();
    assert_eq!((d.alignment, d.byte_size, d.num_args), (1, 1, 1));
    assert_eq!(d.layout, vec![0, 1, 1]);
}

#[test]
fn variant_with_too_many_cases_is_refused() {
    let cases = vec![None; 257];
    let e = size_description_variant(&cases).unwrap_err();
    assert_eq!(e, LayoutError::TooManyVariantCases);
    assert_eq!(e.message(), "Variants with more than 256 values are not yet supported.");
    assert!(size_description_variant(&vec![None; 256]).is_ok());
}

#[test]
fn variant_overflow_is_refused() {
    let cases = [Some(desc(2, usize::MAX - 1, 1))];
    let e = size_description_variant(&cases).unwrap_err();
    assert_eq!(e, LayoutError::Overflow);
    assert_eq!(e.message(), "Size computation overflows usize.");
    let cases = [Some(desc(1, 1, usize::MAX))];
    assert_eq!(size_description_variant(&cases).unwrap_err(), LayoutError::Overflow);
}

#[test]
fn next_multiple_rounds_up() {
    assert_eq!(next_multiple_of(0, 4), 0);
    assert_eq!(next_multiple_of(5, 4), 8);
    assert_eq!(next_multiple_of(8, 4), 8);
    assert_eq!(checked_next_multiple_of(usize::MAX, 2), None);
    assert_eq!(checked_next_multiple_of(9, 3), Some(9));
    assert_eq!(usize_max(3, 7), 7);
    assert_eq!(usize_max(7, 3), 7);
}

#[test]
fn record_layout_laws_hold_on_an_example() {
    // every field starts at a multiple of its alignment; the size is a multiple of the alignment
    let fields = [desc(1, 3, 1), desc(8, 8, 1), desc(2, 2, 1), desc(4, 4, 1)];
    let d = size_description_tuple(&fields).unwrap();
    for (i, f) in fields.iter().enumerate() {
        assert_eq!(d.layout[2 * i] % f.alignment, 0);
        assert_eq!(d.layout[2 * i + 1] - d.layout[2 * i], f.byte_size);
    }
    for k in 1..d.layout.len() {
        assert!(d.layout[k - 1] <= d.layout[k]);
    }
    assert_eq!(d.byte_size % d.alignment, 0);
    assert_eq!(d.layout, vec![0, 3, 8, 16, 16, 18, 20, 24, 24]);
}

#[test]
fn record_alignment_is_the_largest_field_alignment() {
    let d = size_description_tuple(&[desc(2, 2, 1), desc(8, 8, 1), desc(4, 4, 1)]).unwrap();
    assert_eq!(d.alignment, 8);
    assert_eq!(d.byte_size, 24);
    assert_eq!(d.layout, vec![0, 2, 8, 16, 16, 20, 24]);
}
