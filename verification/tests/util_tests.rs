use py0::exception::ExecResult;
use py0::util::{chars_of, xstrdup, PtrVec, StrBuf};

#[test]
fn duplicate_string() {
    assert_eq!(xstrdup("hello"), "hello");
    assert_eq!(xstrdup(""), "");
}

#[test]
fn characters_of_a_string() {
    assert_eq!(chars_of("aé"), vec!['a', 'é']);
}

#[test]
fn pop_undoes_push() {
    let mut v: PtrVec<i32> = PtrVec::with_capacity(4);
    assert_eq!(v.len(), 0);
    v.push(1);
    v.push(2);
    assert_eq!(v.count(), 2);
    assert_eq!(v.pop(), Some(2));
    assert_eq!(v.as_slice(), &[1]);
    assert_eq!(v.pop(), Some(1));
    assert_eq!(v.pop(), None);
    assert_eq!(v.len(), 0);
}

#[test]
fn get_and_get_mut() {
    let mut v: PtrVec<i32> = PtrVec::new();
    v.push(5);
    v.push(6);
    assert_eq!(v.get(1), Some(&6));
    assert_eq!(v.get(2), None);
    *v.get_mut(0).unwrap() = 50;
    assert!(v.get_mut(9).is_none());
    assert_eq!(v.as_slice(), &[50, 6]);
    v.as_mut_slice()[1] = 60;
    let collected: Vec<i32> = v.iter().copied().collect();
    assert_eq!(collected, vec![50, 60]);
}

#[test]
fn default_sequence_is_empty() {
    let v: PtrVec<u8> = PtrVec::default();
    assert_eq!(v.len(), 0);
}

#[test]
fn buffer_collects_appends() {
    let mut b = StrBuf::new();
    b.append_str("ab");
    b.append_str("cd");
    assert_eq!(b.to_string(), "abcd");
    assert_eq!(b.take(), "abcd");
    assert_eq!(b.take(), "");
    let d = StrBuf::default();
    assert_eq!(d.to_string(), "");
}

#[test]
fn block_result_starts_without_return() {
    let r: ExecResult<i64> = ExecResult::new();
    assert!(!r.has_return);
    assert!(r.value.is_none());
    let d: ExecResult<i64> = ExecResult::default();
    assert!(!d.has_return);
}
