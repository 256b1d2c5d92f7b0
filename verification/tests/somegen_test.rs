#[allow(unused_imports)]
use bt_only_headers::somegen::{Foo, Zoo};

#[test]
fn test_something() {
    // let what = Zoo::A(0x1234).to_bytes().unwrap();
    // assert_eq!(what, vec![0x01, 0x02, 0x03, 0x34, 0x12]);
}
