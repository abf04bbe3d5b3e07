use peek::{get_current_handle, get_current_id, pid_to_handle, AcquireError, Peek, Plain, ReadError, PEEK_SIZE};

fn address_of<T>(v: &T) -> usize {
    std::slice::from_ref(v).as_ptr() as usize
}

fn address_of_bytes(v: &[u8]) -> usize {
    v.as_ptr() as usize
}

#[derive(Debug, PartialEq)]
struct Test {
    a: u32,
    b: u32,
}

impl Plain for Test {
    fn size() -> usize {
        std::mem::size_of::<Test>()
    }

    fn from_image(image: &[u8]) -> Self {
        Test {
            a: u32::from_ne_bytes([image[0], image[1], image[2], image[3]]),
            b: u32::from_ne_bytes([image[4], image[5], image[6], image[7]]),
        }
    }
}

#[derive(Debug, PartialEq)]
struct Word(u64);

impl Plain for Word {
    fn size() -> usize {
        8
    }

    fn from_image(image: &[u8]) -> Self {
        let mut b = [0u8; 8];
        b.copy_from_slice(&image[..8]);
        Word(u64::from_ne_bytes(b))
    }
}

#[test]
fn test_peek_vec() {
    let peek = Peek::new_with_pid(get_current_id()).unwrap();
    let src: Vec<u8> = vec![1, 2, 3, 4, 5, 6, 7, 8, 9, 10, 11, 12];
    let mut dst = Vec::<u8>::with_capacity(12);
    peek.peek_vec(address_of_bytes(&src), &mut dst).unwrap();
    assert_eq!(src, dst);
    let peek = Peek::new_with_handle(get_current_handle());
    peek.peek_vec(address_of_bytes(&src), &mut dst).unwrap();
    assert_eq!(src, dst);
}

#[test]
fn test_peek_until_null() {
    let peek = Peek::new_with_pid(get_current_id()).unwrap();
    let src: Vec<u8> = vec![1, 2, 3, 4, 5, 6, 7, 8, 9, 0, 11, 12];
    let mut dst = peek.peek_until_null(address_of_bytes(&src)).unwrap();
    dst.append(&mut vec![0, 11, 12]);
    assert_eq!(src, dst);
}

#[test]
fn test_peek_data() {
    let peek = Peek::new_with_pid(get_current_id()).unwrap();
    let src = Test { a: 1, b: 2 };
    let dst = peek.peek_data::<Test>(address_of(&src)).unwrap();
    assert_eq!(src, dst);
}

#[test]
fn peek_data_round_trips_a_word() {
    let peek = Peek::new_with_pid(get_current_id()).unwrap();
    let src = Word(0x0123_4567_89ab_cdef);
    let dst = peek.peek_data::<Word>(address_of(&src)).unwrap();
    assert_eq!(src, dst);
}

#[test]
fn peek_sized_copies_exactly() {
    let peek = Peek::new_with_handle(get_current_handle());
    let src: Vec<u8> = (0..100u32).map(|i| (i * 7 % 251) as u8).collect();
    let mut dst: Vec<u8> = vec![9, 9, 9];
    peek.peek_sized(address_of_bytes(&src), &mut dst, 100).unwrap();
    assert_eq!(dst.len(), 100);
    assert_eq!(src, dst);
}

fn cstring_with_terminator_at(k: usize) -> Vec<u8> {
    let mut v: Vec<u8> = (0..k).map(|i| (i % 200 + 1) as u8).collect();
    v.push(0);
    v.extend_from_slice(&[7, 7, 7, 7]);
    v
}

#[test]
fn cstring_terminator_below_chunk() {
    let peek = Peek::new_with_pid(get_current_id()).unwrap();
    let src = cstring_with_terminator_at(5);
    let got = peek.peek_until_null(address_of_bytes(&src)).unwrap();
    assert_eq!(got, src[..5].to_vec());
}

#[test]
fn cstring_terminator_on_chunk_boundary() {
    let peek = Peek::new_with_pid(get_current_id()).unwrap();
    let src = cstring_with_terminator_at(PEEK_SIZE);
    let got = peek.peek_until_null(address_of_bytes(&src)).unwrap();
    assert_eq!(got.len(), 32);
    assert_eq!(got, src[..32].to_vec());
}

#[test]
fn cstring_terminator_last_in_chunk() {
    let peek = Peek::new_with_pid(get_current_id()).unwrap();
    let src = cstring_with_terminator_at(31);
    let got = peek.peek_until_null(address_of_bytes(&src)).unwrap();
    assert_eq!(got, src[..31].to_vec());
}

#[test]
fn cstring_terminator_beyond_chunks() {
    let peek = Peek::new_with_pid(get_current_id()).unwrap();
    let src = cstring_with_terminator_at(75);
    let got = peek.peek_until_null(address_of_bytes(&src)).unwrap();
    assert_eq!(got, src[..75].to_vec());
}

#[test]
fn cstring_empty() {
    let peek = Peek::new_with_pid(get_current_id()).unwrap();
    let src: Vec<u8> = vec![0, 1, 2, 3];
    let got = peek.peek_until_null(address_of_bytes(&src)).unwrap();
    assert!(got.is_empty());
}

#[test]
fn current_handle_and_own_pid_read_alike() {
    let src: Vec<u8> = vec![42, 43, 44, 45, 0];
    let by_handle = Peek::new_with_handle(get_current_handle());
    let by_pid = Peek::new_with_handle(pid_to_handle(get_current_id()).unwrap());
    assert_eq!(by_handle.handle(), by_pid.handle());
    let a = by_handle.peek_until_null(address_of_bytes(&src)).unwrap();
    let b = by_pid.peek_until_null(address_of_bytes(&src)).unwrap();
    assert_eq!(a, vec![42, 43, 44, 45]);
    assert_eq!(a, b);
}

#[test]
fn handle_is_the_pid() {
    let me = get_current_id();
    assert!(me > 0);
    assert_eq!(get_current_handle(), me);
    assert_eq!(pid_to_handle(me), Ok(me));
    assert_eq!(Peek::new_with_pid(me).unwrap().handle(), me);
}

#[test]
fn non_positive_pid_is_refused() {
    assert_eq!(pid_to_handle(0), Err(AcquireError::BadPid));
    assert_eq!(pid_to_handle(-1), Err(AcquireError::BadPid));
    assert!(matches!(Peek::new_with_pid(-42), Err(AcquireError::BadPid)));
}

#[test]
fn invalid_address_does_not_read() {
    let peek = Peek::new_with_pid(get_current_id()).unwrap();
    let mut dst = Vec::<u8>::with_capacity(16);
    match peek.peek_vec(8, &mut dst) {
        Err(ReadError::Os(code)) => assert!(code != 0),
        Err(ReadError::Short { requested, read }) => assert!(read < requested),
        Ok(()) => panic!("address 8 is not mapped"),
    }
    match peek.peek_until_null(8) {
        Err(ReadError::Os(_)) => {}
        Ok(s) => assert!(s.is_empty()),
        Err(ReadError::Short { .. }) => panic!("the scan never fails short"),
    }
    assert!(peek.peek_data::<Word>(8).is_err());
}

#[test]
fn nonexistent_process_fails() {
    assert!(matches!(pid_to_handle(i32::MAX), Err(AcquireError::Os(_))));
    assert!(matches!(Peek::new_with_pid(i32::MAX), Err(AcquireError::Os(_))));
}

#[test]
fn failed_read_leaves_destination() {
    let peek = Peek::new_with_pid(get_current_id()).unwrap();
    let mut dst: Vec<u8> = Vec::with_capacity(16);
    dst.extend_from_slice(&[5, 6, 7]);
    assert!(peek.peek_vec(8, &mut dst).is_err());
    assert_eq!(dst, vec![5, 6, 7]);
    let mut other: Vec<u8> = vec![1, 2];
    assert!(peek.peek_sized(8, &mut other, 8).is_err());
    assert_eq!(other, vec![1, 2]);
}
