use firework::vector2d::Vector2D;

#[test]
fn new_stores_components() {
    let v = Vector2D::new(1500, -2500);
    assert_eq!(v.x, 1500);
    assert_eq!(v.y, -2500);
}

#[test]
fn add_is_component_wise() {
    let a = Vector2D::new(1000, 2000);
    let b = Vector2D::new(-300, 70);
    let c = a.add(b);
    assert_eq!(c.x, 700);
    assert_eq!(c.y, 2070);
}

#[test]
fn sub_is_component_wise() {
    let a = Vector2D::new(1000, 2000);
    let b = Vector2D::new(-300, 70);
    let c = a.sub(b);
    assert_eq!(c.x, 1300);
    assert_eq!(c.y, 1930);
}

#[test]
fn vectors_compare_by_value() {
    assert_eq!(Vector2D::new(1, 2), Vector2D::new(1, 2));
    assert_ne!(Vector2D::new(1, 2), Vector2D::new(2, 1));
}
