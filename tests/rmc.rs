use prudp::rmc::{Any, RmcError};

#[test]
fn any_round_trip() {
    let a = Any { name: String::from("Data"), data: vec![9, 8, 7] };
    let mut out = Vec::new();
    a.serialize(&mut out);
    assert_eq!(out, vec![5, 0, b'D', b'a', b't', b'a', 0, 7, 0, 0, 0, 3, 0, 0, 0, 9, 8, 7]);
    out.push(0xFF);
    let (b, next) = Any::deserialize(&out, 0).unwrap();
    assert_eq!(next, out.len() - 1);
    assert_eq!(b.name, "Data");
    assert_eq!(b.data, vec![9, 8, 7]);
}

#[test]
fn any_errors() {
    assert_eq!(Any::deserialize(&[5], 0).unwrap_err(), RmcError::Truncated);
    assert_eq!(Any::deserialize(&[5, 0, b'D', b'a'], 0).unwrap_err(), RmcError::Truncated);
    let no_nul = [2, 0, b'D', b'a', 6, 0, 0, 0, 2, 0, 0, 0, 1, 2];
    assert_eq!(Any::deserialize(&no_nul, 0).unwrap_err(), RmcError::BadString);
    let bad_utf8 = [2, 0, 0xFF, 0, 6, 0, 0, 0, 2, 0, 0, 0, 1, 2];
    assert_eq!(Any::deserialize(&bad_utf8, 0).unwrap_err(), RmcError::BadString);
    let short_data = [2, 0, b'D', 0, 6, 0, 0, 0, 2, 0, 0, 0, 1];
    assert_eq!(Any::deserialize(&short_data, 0).unwrap_err(), RmcError::Truncated);
}
