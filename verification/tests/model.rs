use wgstd::arith::wrapping_add_u32;
use wgstd::bitonic_sort::{bitonic_sort, next_pow2, sort_pass, sort_pass_params, SortParams};
use wgstd::device_vec::{check_transfer_len, DeviceVec};
use wgstd::error::WgError;
use wgstd::kernel::{
    element_kind_for_name, scalar_token, scan_kernel_source, sort_kernel_source, ElementKind,
};
use wgstd::scan::{scan_inclusive, scan_pass, scan_pass_offsets};

fn upload(values: &[u32]) -> DeviceVec {
    let mut v = DeviceVec::new(values.len());
    assert_eq!(v.copy_from_slice(values), Ok(()));
    v
}

fn download(v: &DeviceVec) -> Vec<u32> {
    let mut out = vec![0u32; v.len()];
    assert_eq!(v.copy_to_slice(&mut out), Ok(()));
    out
}

#[test]
fn allocate_zero_initialized() {
    let v = DeviceVec::new(5);
    assert_eq!(v.len(), 5);
    assert_eq!(download(&v), vec![0, 0, 0, 0, 0]);
}

#[test]
fn round_trip_returns_uploaded_data() {
    let data: Vec<u32> = vec![9, 0, 42, 7, 3, 3, 1];
    let v = upload(&data);
    assert_eq!(download(&v), data);
}

#[test]
fn transfer_length_check() {
    assert_eq!(check_transfer_len(4, 4), Ok(()));
    assert_eq!(check_transfer_len(4, 3), Err(WgError::LengthMismatch));
    assert_eq!(check_transfer_len(0, 1), Err(WgError::LengthMismatch));
}

#[test]
fn upload_length_mismatch_rejected() {
    let mut v = DeviceVec::new(4);
    assert_eq!(v.copy_from_slice(&[1, 2, 3]), Err(WgError::LengthMismatch));
    assert_eq!(v.copy_from_slice(&[1, 2, 3, 4, 5]), Err(WgError::LengthMismatch));
    assert_eq!(download(&v), vec![0, 0, 0, 0]);
}

#[test]
fn download_length_mismatch_rejected() {
    let v = upload(&[1, 2]);
    let mut too_short = vec![0u32; 1];
    assert_eq!(v.copy_to_slice(&mut too_short), Err(WgError::LengthMismatch));
    assert_eq!(too_short, vec![0]);
    let mut too_long = vec![7u32; 3];
    assert_eq!(v.copy_to_slice(&mut too_long), Err(WgError::LengthMismatch));
    assert_eq!(too_long, vec![7, 7, 7]);
}

#[test]
fn scan_example() {
    let mut v = upload(&[1, 2, 3, 4, 5, 6, 7, 8]);
    scan_inclusive(&mut v);
    assert_eq!(download(&v), vec![1, 3, 6, 10, 15, 21, 28, 36]);
}

#[test]
fn scan_non_power_of_two_length() {
    let mut v = upload(&[5, 1, 4, 1, 5, 9, 2]);
    scan_inclusive(&mut v);
    assert_eq!(download(&v), vec![5, 6, 10, 11, 16, 25, 27]);
}

#[test]
fn scan_on_empty_is_identity() {
    let mut v = DeviceVec::new(0);
    scan_inclusive(&mut v);
    assert_eq!(v.len(), 0);
}

#[test]
fn scan_on_single_is_identity() {
    let mut v = upload(&[13]);
    scan_inclusive(&mut v);
    assert_eq!(download(&v), vec![13]);
}

#[test]
fn scan_wraps_like_machine_addition() {
    let mut v = upload(&[u32::MAX, 1, 1]);
    scan_inclusive(&mut v);
    assert_eq!(download(&v), vec![u32::MAX, 0, 1]);
}

#[test]
fn scan_pass_adds_at_offset() {
    let mut data: Vec<u32> = vec![1, 2, 3, 4];
    scan_pass(&mut data, 1);
    assert_eq!(data, vec![1, 3, 5, 7]);
    let mut data2: Vec<u32> = vec![1, 3, 5, 7];
    scan_pass(&mut data2, 2);
    assert_eq!(data2, vec![1, 3, 6, 10]);
}

#[test]
fn scan_offsets_double_below_length() {
    assert_eq!(scan_pass_offsets(0), Vec::<u32>::new());
    assert_eq!(scan_pass_offsets(1), Vec::<u32>::new());
    assert_eq!(scan_pass_offsets(2), vec![1]);
    assert_eq!(scan_pass_offsets(8), vec![1, 2, 4]);
    assert_eq!(scan_pass_offsets(9), vec![1, 2, 4, 8]);
}

#[test]
fn sort_example() {
    let mut v = upload(&[1, 3, 2, 5, 4, 6, 7, 8]);
    bitonic_sort(&mut v);
    assert_eq!(download(&v), vec![1, 2, 3, 4, 5, 6, 7, 8]);
}

#[test]
fn sort_descending_input() {
    let mut v = upload(&[8, 7, 6, 5, 4, 3, 2, 1]);
    bitonic_sort(&mut v);
    assert_eq!(download(&v), vec![1, 2, 3, 4, 5, 6, 7, 8]);
}

#[test]
fn sort_with_ties() {
    let mut v = upload(&[3, 1, 3, 1]);
    bitonic_sort(&mut v);
    assert_eq!(download(&v), vec![1, 1, 3, 3]);
}

#[test]
fn sort_on_empty_is_identity() {
    let mut v = DeviceVec::new(0);
    bitonic_sort(&mut v);
    assert_eq!(v.len(), 0);
}

#[test]
fn sort_on_single_is_identity() {
    let mut v = upload(&[99]);
    bitonic_sort(&mut v);
    assert_eq!(download(&v), vec![99]);
}

#[test]
fn sort_is_idempotent() {
    let mut v = upload(&[6, 2, 8, 4, 1, 7, 5, 3]);
    bitonic_sort(&mut v);
    let once = download(&v);
    bitonic_sort(&mut v);
    assert_eq!(download(&v), once);
}

#[test]
fn sort_output_is_sorted_permutation() {
    let input: Vec<u32> = vec![10, 4, 4, 77, 0, 23];
    let mut v = upload(&input);
    bitonic_sort(&mut v);
    let output = download(&v);
    let mut expected = input.clone();
    expected.sort();
    assert_eq!(output, expected);
}

#[test]
fn sort_non_power_of_two_lengths() {
    let mut v3 = upload(&[3, 2, 1]);
    bitonic_sort(&mut v3);
    assert_eq!(download(&v3), vec![1, 2, 3]);
    let mut v5 = upload(&[9, 1, 8, 2, 7]);
    bitonic_sort(&mut v5);
    assert_eq!(download(&v5), vec![1, 2, 7, 8, 9]);
    let mut v7 = upload(&[5, 5, 0, u32::MAX, 3, 2, 9]);
    bitonic_sort(&mut v7);
    assert_eq!(download(&v7), vec![0, 2, 3, 5, 5, 9, u32::MAX]);
}

#[test]
fn sort_on_sorted_input_is_identity() {
    let input: Vec<u32> = vec![1, 1, 2, 5, 9];
    let mut v = upload(&input);
    bitonic_sort(&mut v);
    assert_eq!(download(&v), input);
}

#[test]
fn padded_network_matches_engine() {
    for input in [
        vec![1u32, 3, 2, 5, 4, 6, 7, 8],
        vec![3u32, 2, 1],
        vec![9u32, 1, 8, 2, 7],
        vec![4u32],
        vec![7u32, 7, 0, 1, 2, 6],
    ] {
        let n = input.len();
        let padded_len = next_pow2(n);
        let mut padded = input.clone();
        padded.resize(padded_len, u32::MAX);
        for params in sort_pass_params(padded_len) {
            sort_pass(&mut padded, params.j as usize, params.k as usize);
        }
        padded.truncate(n);
        let mut v = upload(&input);
        bitonic_sort(&mut v);
        assert_eq!(download(&v), padded);
    }
}

#[test]
fn sort_pass_compare_exchanges_pairs() {
    let mut data: Vec<u32> = vec![2, 1, 4, 3];
    sort_pass(&mut data, 1, 2);
    assert_eq!(data, vec![1, 2, 4, 3]);
}

#[test]
fn next_pow2_rounds_up() {
    assert_eq!(next_pow2(0), 1);
    assert_eq!(next_pow2(1), 1);
    assert_eq!(next_pow2(2), 2);
    assert_eq!(next_pow2(3), 4);
    assert_eq!(next_pow2(5), 8);
    assert_eq!(next_pow2(8), 8);
    assert_eq!(next_pow2(9), 16);
}

#[test]
fn sort_plan_repeats_rounded_block_sizes() {
    let plan = sort_pass_params(8);
    let pairs: Vec<(u32, u32)> = plan.iter().map(|p| (p.j, p.k)).collect();
    assert_eq!(
        pairs,
        vec![
            (1, 2),
            (2, 4),
            (1, 4),
            (2, 4),
            (1, 4),
            (4, 8),
            (2, 8),
            (1, 8),
            (4, 8),
            (2, 8),
            (1, 8),
            (4, 8),
            (2, 8),
            (1, 8),
            (4, 8),
            (2, 8),
            (1, 8),
        ]
    );
}

#[test]
fn sort_plan_empty_for_trivial_lengths() {
    assert_eq!(sort_pass_params(0), Vec::<SortParams>::new());
    assert_eq!(sort_pass_params(1), Vec::<SortParams>::new());
    let plan = sort_pass_params(2);
    assert_eq!(plan.len(), 1);
    assert_eq!((plan[0].j, plan[0].k), (1, 2));
}

#[test]
fn wrapping_addition_wraps() {
    assert_eq!(wrapping_add_u32(u32::MAX, 1), 0);
    assert_eq!(wrapping_add_u32(7, 8), 15);
}

#[test]
fn scalar_tokens() {
    assert_eq!(scalar_token(ElementKind::U32), "u32");
    assert_eq!(scalar_token(ElementKind::I32), "i32");
    assert_eq!(scalar_token(ElementKind::F32), "f32");
}

#[test]
fn element_kind_lookup() {
    assert_eq!(element_kind_for_name("u32"), Ok(ElementKind::U32));
    assert_eq!(element_kind_for_name("i32"), Ok(ElementKind::I32));
    assert_eq!(element_kind_for_name("f32"), Ok(ElementKind::F32));
    assert_eq!(element_kind_for_name("u64"), Err(WgError::UnsupportedElementType));
    assert_eq!(element_kind_for_name(""), Err(WgError::UnsupportedElementType));
    assert_eq!(
        element_kind_for_name("alloc::string::String"),
        Err(WgError::UnsupportedElementType)
    );
}

#[test]
fn kernel_sources_substitute_scalar_name() {
    let sort_src = sort_kernel_source(ElementKind::U32);
    assert!(sort_src.contains("array<u32>"));
    assert!(sort_src.contains("struct SortParams"));
    assert!(sort_src.contains("let ixj = i ^ params.j;"));
    assert!(sort_src.contains("ixj > i && ixj < arrayLength(&buffer)"));
    let scan_src = scan_kernel_source(ElementKind::I32);
    assert!(scan_src.contains("array<i32>"));
    assert!(scan_src.contains("struct ScanParams"));
    assert!(scan_src.contains("buffer[i] = buffer[i] + buffer[i - params.offset];"));
    let expected_prefix = "\n@group(0) @binding(0) var<storage, read_write> buffer: array<f32>;";
    assert!(scan_kernel_source(ElementKind::F32).starts_with(expected_prefix));
}
