use muharrir::inspector::{Property, PropertySheet};

#[test]
fn property_new() {
    let p = Property::new("Transform", "position", "(1, 2, 3)");
    assert_eq!(p.category, "Transform");
    assert_eq!(p.name, "position");
    assert_eq!(p.value, "(1, 2, 3)");
}

#[test]
fn property_sheet_empty() {
    let sheet = PropertySheet::new();
    assert!(sheet.is_empty());
    assert_eq!(sheet.len(), 0);
}

#[test]
fn property_sheet_push_and_query() {
    let mut sheet = PropertySheet::new();
    sheet.push(Property::new("Transform", "position", "(0, 0, 0)"));
    sheet.push(Property::new("Transform", "rotation", "(0, 0, 0)"));
    sheet.push(Property::new("Material", "color", "red"));

    assert_eq!(sheet.len(), 3);
    assert_eq!(sheet.by_category("Transform").len(), 2);
    assert_eq!(sheet.by_category("Material").len(), 1);
    assert_eq!(sheet.by_category("Audio").len(), 0);
}

#[test]
fn categories_ordered() {
    let mut sheet = PropertySheet::new();
    sheet.push(Property::new("B", "x", "1"));
    sheet.push(Property::new("A", "y", "2"));
    sheet.push(Property::new("B", "z", "3"));

    let cats = sheet.categories();
    assert_eq!(cats, vec!["B", "A"]);
}

#[test]
fn property_equality() {
    let a = Property::new("T", "x", "1");
    let b = Property::new("T", "x", "1");
    assert_eq!(a, b);
}

#[test]
fn by_category_keeps_sheet_order() {
    let mut sheet = PropertySheet::new();
    sheet.push(Property::new("A", "first", "1"));
    sheet.push(Property::new("B", "other", "2"));
    sheet.push(Property::new("A", "second", "3"));
    let a = sheet.by_category("A");
    assert_eq!(a[0].name, "first");
    assert_eq!(a[1].name, "second");
}

#[test]
fn categories_of_empty_sheet() {
    let sheet = PropertySheet::default();
    assert!(sheet.categories().is_empty());
}
