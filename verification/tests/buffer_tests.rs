use mpc_bridge::buffer::bufs_eq;
use mpc_bridge::buffer::bytes_eq;
use mpc_bridge::buffer::cmem_get;
use mpc_bridge::buffer::copy_bufs;
use mpc_bridge::buffer::CMem;
use mpc_bridge::buffer::CMems;

#[test]
fn single_buffer_round_trip() {
    let data = vec![1u8, 2, 3, 4, 5];
    let m = CMem::new(&data);
    assert!(!m.is_null());
    assert_eq!(m.size(), 5);
    assert_eq!(m.to_bytes(), data);
}

#[test]
fn empty_buffer_is_null_and_round_trips() {
    let m = CMem::new(&[]);
    assert!(m.is_null());
    assert_eq!(m.size(), 0);
    assert_eq!(m.to_bytes(), Vec::<u8>::new());
}

#[test]
fn cmem_get_matches_to_bytes() {
    let m = CMem::new(&[9u8, 8, 7]);
    assert_eq!(cmem_get(m), vec![9u8, 8, 7]);
}

#[test]
fn buffer_set_round_trip() {
    let data = vec![vec![1u8, 2], vec![], vec![3u8, 4, 5], vec![6u8]];
    let ms = CMems::new(&data);
    assert_eq!(ms.count(), 4);
    assert_eq!(ms.to_vec(), data);
}

#[test]
fn empty_buffer_set_round_trips() {
    let data: Vec<Vec<u8>> = Vec::new();
    let ms = CMems::new(&data);
    assert_eq!(ms.count(), 0);
    assert_eq!(ms.to_vec(), data);
}

#[test]
fn buffer_set_preserves_order_and_boundaries() {
    let data = vec![vec![1u8, 2, 3], vec![4u8], vec![5u8, 6]];
    let back = CMems::new(&data).to_vec();
    assert_eq!(back[0], vec![1u8, 2, 3]);
    assert_eq!(back[1], vec![4u8]);
    assert_eq!(back[2], vec![5u8, 6]);
}

#[test]
fn buffer_set_of_all_empty_elements() {
    let data = vec![Vec::<u8>::new(), Vec::<u8>::new()];
    let ms = CMems::new(&data);
    assert_eq!(ms.count(), 2);
    assert_eq!(ms.to_vec(), data);
}

#[test]
fn bytes_eq_compares_content() {
    assert!(bytes_eq(&[1u8, 2], &[1u8, 2]));
    assert!(!bytes_eq(&[1u8, 2], &[1u8, 3]));
    assert!(!bytes_eq(&[1u8, 2], &[1u8, 2, 3]));
    assert!(bytes_eq(&[], &[]));
}

#[test]
fn bufs_eq_compares_content_and_order() {
    let a = vec![vec![1u8], vec![2u8, 3]];
    let b = vec![vec![1u8], vec![2u8, 3]];
    let c = vec![vec![2u8, 3], vec![1u8]];
    assert!(bufs_eq(&a, &b));
    assert!(!bufs_eq(&a, &c));
}

#[test]
fn copy_bufs_copies_exactly() {
    let a = vec![vec![1u8], vec![], vec![2u8, 3]];
    assert_eq!(copy_bufs(&a), a);
}
