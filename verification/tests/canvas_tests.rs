use abra::canvas::{AddCanvasOptions, Anchor, Canvas, Layer, Origin};
use abra::image::Image;

fn ids(c: &Canvas) -> Vec<String> {
    c.layers().iter().map(|l| l.id()).collect()
}

fn stack() -> Canvas {
    let c = Canvas::with_id(String::from("canvas"), "Project");
    let c = c.add_layer_from_image("Background", Image::new(4, 3));
    let c = c.add_layer_from_image("Middle", Image::new(2, 2));
    c.add_layer_from_image("Top", Image::new(1, 1))
}

#[test]
fn new_canvas_is_empty() {
    let c = Canvas::new("My Project");
    assert_eq!(c.name(), "My Project");
    assert_eq!(c.dimensions(), (0, 0));
    assert_eq!(c.layer_count(), 0);
    assert_eq!(c.position(), (0, 0));
    assert!(!c.pass_through());
    assert_eq!(c.id().len(), 32);
    assert!(c.id().chars().all(|ch| ch.is_ascii_hexdigit()));
    let blank = Canvas::new_blank("Blank", 10, 20);
    assert_eq!(blank.dimensions(), (10, 20));
}

#[test]
fn first_layer_sizes_the_canvas() {
    let c = stack();
    assert_eq!(c.dimensions(), (4, 3));
    assert_eq!(c.layer_count(), 3);
    let names: Vec<String> = c.layers().iter().map(|l| l.name()).collect();
    assert_eq!(names, vec!["Background", "Middle", "Top"]);
    let sized = Canvas::new_blank("Sized", 9, 9).add_layer_from_image("L", Image::new(2, 2));
    assert_eq!(sized.dimensions(), (9, 9));
}

#[test]
fn lookups_find_first_match() {
    let c = stack();
    let middle = c.get_layer_by_name("Middle").unwrap();
    assert_eq!(middle.dimensions(), (2, 2));
    let by_id = c.get_layer_by_id(&middle.id()).unwrap();
    assert_eq!(by_id.name(), "Middle");
    assert!(c.get_layer_by_name("Missing").is_none());
    assert!(c.get_layer_by_id("nope").is_none());
    assert_eq!(c.get_layer_by_index(2).unwrap().name(), "Top");
    assert!(c.get_layer_by_index(3).is_none());
}

#[test]
fn delete_removes_one_layer() {
    let mut c = stack();
    let id = c.get_layer_by_name("Middle").unwrap().id();
    c.delete_layer_by_id(&id);
    assert_eq!(c.layer_count(), 2);
    assert!(c.get_layer_by_name("Middle").is_none());
    c.delete_layer_by_id("unknown");
    assert_eq!(c.layer_count(), 2);
}

#[test]
fn reorder_reverses_the_listed_order() {
    let mut c = stack();
    let before = ids(&c);
    let mut listed = before.clone();
    listed.reverse();
    // listing the identifiers from the end of the stack to its start keeps it
    c.reorder_layers_by_id(listed);
    assert_eq!(ids(&c), before);
    // listing them from start to end reverses it
    c.reorder_layers_by_id(before.clone());
    let mut reversed = before.clone();
    reversed.reverse();
    assert_eq!(ids(&c), reversed);
}

#[test]
fn reorder_with_duplicate_or_unknown_ids_changes_nothing() {
    let mut c = stack();
    let before = ids(&c);
    c.reorder_layers_by_id(vec![before[0].clone(), before[0].clone()]);
    assert_eq!(ids(&c), before);
    c.reorder_layers_by_id(vec![before[0].clone(), String::from("unknown")]);
    assert_eq!(ids(&c), before);
}

#[test]
fn reorder_with_some_ids_keeps_only_those() {
    let mut c = stack();
    let before = ids(&c);
    c.reorder_layers_by_id(vec![before[2].clone(), before[0].clone()]);
    assert_eq!(ids(&c), vec![before[0].clone(), before[2].clone()]);
}

#[test]
fn position_origin_and_pass_through() {
    let mut c = Canvas::new("C");
    c.set_position(5, -7);
    assert_eq!(c.position(), (5, -7));
    c.set_origin(Origin::Center);
    assert_eq!(c.origin(), Origin::Center);
    c.set_pass_through(true);
    assert!(c.pass_through());
}

#[test]
fn anchor_places_canvas_in_parent() {
    let mut c = Canvas::new_blank("C", 10, 4);
    c.apply_anchor_with_parent_dimensions(100, 50);
    assert_eq!(c.position(), (0, 0));
    c.anchor_to_canvas(Anchor::Center);
    c.apply_anchor_with_parent_dimensions(100, 50);
    assert_eq!(c.position(), (45, 23));
    c.anchor_to_canvas(Anchor::BottomRight);
    c.apply_anchor_with_parent_dimensions(100, 50);
    assert_eq!(c.position(), (90, 46));
    // a child wider than its parent: the free room is negative and halved towards zero
    c.anchor_to_canvas(Anchor::Top);
    c.apply_anchor_with_parent_dimensions(5, 50);
    assert_eq!(c.position(), (-2, 0));
}

#[test]
fn add_canvas_places_child() {
    let mut parent = Canvas::new_blank("Parent", 100, 60);
    let child = Canvas::new_blank("Child", 20, 10);
    parent.add_canvas(child, Some(AddCanvasOptions { position: Some((3, 4)), anchor: None }));
    let other = Canvas::new_blank("Other", 20, 10);
    parent.add_canvas(other, Some(AddCanvasOptions { position: None, anchor: Some(Anchor::BottomRight) }));
    parent.add_canvas(Canvas::new("Plain"), None);
    assert_eq!(parent.layer_count(), 0);
}

#[test]
fn layer_accessors() {
    let l = Layer::with_id(String::from("abc"), "Name", Image::new(3, 2));
    assert_eq!(l.id(), "abc");
    assert_eq!(l.name(), "Name");
    assert_eq!(l.dimensions(), (3, 2));
    assert_eq!(l.image().dimensions(), (3, 2));
    let copy = l.clone();
    assert_eq!(copy.id(), "abc");
    let fresh = Layer::new("Fresh", Image::new(1, 1));
    assert_eq!(fresh.id().len(), 32);
}
