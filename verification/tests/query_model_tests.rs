use zawgl::ast::{enter_callback, exit_callback, AstCallback, AstTag};
use zawgl::gremlin::{integer_to_u64, GInt32, GInt64, GInteger, GMap};

#[test]
fn tags_dispatch_to_callbacks() {
    assert_eq!(enter_callback(Some(AstTag::Create)), AstCallback::Create);
    assert_eq!(enter_callback(Some(AstTag::RelDirectedRL)), AstCallback::Relationship);
    assert_eq!(exit_callback(Some(AstTag::RelUndirected)), AstCallback::Relationship);
    assert_eq!(enter_callback(Some(AstTag::Where)), AstCallback::Where);
    assert_eq!(enter_callback(Some(AstTag::AndOperator)), AstCallback::Skip);
    assert_eq!(exit_callback(Some(AstTag::ItemPropertyIdentifier)), AstCallback::Skip);
    assert_eq!(enter_callback(None), AstCallback::Skip);
    assert_eq!(exit_callback(None), AstCallback::Skip);
    assert_eq!(enter_callback(Some(AstTag::Parameter)), AstCallback::Skip);
    assert_eq!(exit_callback(Some(AstTag::Parameter)), AstCallback::Parameter);
}

#[test]
fn integers_read_as_unsigned() {
    assert_eq!(integer_to_u64(GInteger::I32(GInt32(5))), Ok(5));
    assert_eq!(integer_to_u64(GInteger::I32(GInt32(-1))), Ok(u64::MAX));
    assert_eq!(integer_to_u64(GInteger::I32(GInt32(i32::MIN))), Ok(i32::MIN as u64));
    assert_eq!(integer_to_u64(GInteger::I64(GInt64(i64::MAX))), Ok(i64::MAX as u64));
    assert_eq!(
        integer_to_u64(GInteger::I64(GInt64(-3))),
        Err("Error casting to unsigned integer")
    );
}

#[test]
fn gmap_starts_empty() {
    assert!(GMap::new().map.is_empty());
}
