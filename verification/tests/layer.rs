use eddy::layer::{Layer, NilLayer};
use eddy::style::Capture;
use ropey::Rope;

#[test]
fn the_nil_layer_highlights_nothing() {
    let mut l = NilLayer::new();
    assert_eq!(l.capture(0), None::<Capture>);
    assert_eq!(l.capture_from_node(7), None);
    let r = Rope::from_str("fn main() {}");
    l.update_highlights(&r);
    l.edit_tree_insert(&r, 0, 3);
    l.edit_tree_remove(&r, 0, 3);
    assert_eq!(l.capture(1), None);
}
