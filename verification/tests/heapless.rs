use core::fmt::Write;
use core::mem::size_of;
use picobroker_core::protocol::heapless::{HeaplessString, HeaplessVec};

#[test]
fn test_optimized_string_size() {
    assert_eq!(size_of::<HeaplessString<0>>(), 1);
    assert_eq!(size_of::<HeaplessString<1>>(), 2);
    assert_eq!(size_of::<HeaplessString<2>>(), 3);
    assert_eq!(size_of::<HeaplessString<3>>(), 4);
    assert_eq!(size_of::<HeaplessString<4>>(), 5);
    assert_eq!(size_of::<HeaplessString<5>>(), 6);
    assert_eq!(size_of::<HeaplessString<6>>(), 7);
    assert_eq!(size_of::<HeaplessString<7>>(), 8);
    assert_eq!(size_of::<HeaplessString<8>>(), 9);
    assert_eq!(size_of::<HeaplessString<9>>(), 10);
    assert_eq!(size_of::<HeaplessString<10>>(), 11);
    assert_eq!(size_of::<HeaplessString<11>>(), 12);
    assert_eq!(size_of::<HeaplessString<12>>(), 13);
    assert_eq!(size_of::<HeaplessString<13>>(), 14);
    assert_eq!(size_of::<HeaplessString<14>>(), 15);
    assert_eq!(size_of::<HeaplessString<15>>(), 16);
    assert_eq!(size_of::<HeaplessString<16>>(), 17);
    assert_eq!(size_of::<HeaplessString<17>>(), 18);
    assert_eq!(size_of::<HeaplessString<18>>(), 19);
    assert_eq!(size_of::<HeaplessString<19>>(), 20);
    assert_eq!(size_of::<HeaplessString<20>>(), 21);
    assert_eq!(size_of::<HeaplessString<21>>(), 22);
    assert_eq!(size_of::<HeaplessString<22>>(), 23);
    assert_eq!(size_of::<HeaplessString<23>>(), 24);
    assert_eq!(size_of::<HeaplessString<24>>(), 25);
    assert_eq!(size_of::<HeaplessString<25>>(), 26);
    assert_eq!(size_of::<HeaplessString<26>>(), 27);
    assert_eq!(size_of::<HeaplessString<27>>(), 28);
    assert_eq!(size_of::<HeaplessString<28>>(), 29);
    assert_eq!(size_of::<HeaplessString<29>>(), 30);
    assert_eq!(size_of::<HeaplessString<30>>(), 31);
    assert_eq!(size_of::<HeaplessString<31>>(), 32);
    assert_eq!(size_of::<HeaplessString<32>>(), 33);
}

#[test]
fn test_extend_from_slice() {
    let mut vec: HeaplessVec<u8, 5> = HeaplessVec::new();
    let _ = vec.push(1);
    let _ = vec.push(2);

    assert!(vec.extend_from_slice(&[]).is_ok());
    assert_eq!(vec.len(), 2);

    assert!(vec.extend_from_slice(&[3, 4]).is_ok());
    assert_eq!(vec.len(), 4);
    assert_eq!(vec.as_slice(), &[1, 2, 3, 4]);

    assert!(vec.extend_from_slice(&[5, 6]).is_err());
    assert_eq!(vec.len(), 4);
}

#[test]
fn test_remove() {
    let mut vec: HeaplessVec<u8, 5> = HeaplessVec::new();
    let _ = vec.push(1);
    let _ = vec.push(2);
    let _ = vec.push(3);
    let _ = vec.push(4);

    vec.remove(1);
    assert_eq!(vec.as_slice(), &[1, 3, 4]);

    vec.remove(0);
    assert_eq!(vec.as_slice(), &[3, 4]);

    vec.remove(1);
    assert_eq!(vec.as_slice(), &[3]);

    vec.remove(0);
    assert!(vec.is_empty());
}

#[test]
fn test_retain() {
    let mut vec: HeaplessVec<u8, 10> = HeaplessVec::new();
    for i in 1..=5 {
        let _ = vec.push(i);
    }

    vec.retain(|x| x % 2 == 0);
    assert_eq!(vec.as_slice(), &[2, 4]);

    vec.retain(|_| true);
    assert_eq!(vec.as_slice(), &[2, 4]);

    vec.retain(|_| false);
    assert!(vec.is_empty());
}

#[test]
fn test_vec_iteration_via_deref() {
    let mut vec: HeaplessVec<u8, 5> = HeaplessVec::new();
    let _ = vec.push(1);
    let _ = vec.push(2);
    let _ = vec.push(3);

    let mut iter = vec.iter();
    assert_eq!(iter.next(), Some(&1));
    assert_eq!(iter.next(), Some(&2));
    assert_eq!(iter.next(), Some(&3));
    assert_eq!(iter.next(), None);

    let mut sum = 0;
    for item in &vec {
        sum += item;
    }
    assert_eq!(sum, 6);
}

#[test]
fn test_fmt_write_basic() {
    let mut s = HeaplessString::<10>::new();
    s.write_str("hello").unwrap();
    assert_eq!(s.as_str(), "hello");
    assert_eq!(s.len(), 5);
}

#[test]
fn test_fmt_write_formatting() {
    let mut s = HeaplessString::<20>::new();
    s.write_str("Hello, world!").unwrap();
    assert_eq!(s.as_str(), "Hello, world!");
}

#[test]
fn test_fmt_write_truncates_on_overflow() {
    let mut s = HeaplessString::<5>::new();
    s.write_str("hello world").unwrap();

    assert_eq!(s.as_str(), "hello");
    assert_eq!(s.len(), 5);
}
