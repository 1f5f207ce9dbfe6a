use tfplanshow::{render_path, PathSegment};

fn s(x: &str) -> PathSegment {
    PathSegment::Str(x.to_string())
}

fn n(x: &str) -> PathSegment {
    PathSegment::Number(x.to_string())
}

#[test]
fn render_path_handles_plain_string_segments() {
    let path = vec![s("tags"), s("Name")];
    assert_eq!(render_path(&path), "tags.Name");
}

#[test]
fn render_path_handles_array_index_segments() {
    let path = vec![s("ingress"), n("0"), s("from_port")];
    assert_eq!(render_path(&path), "ingress[0].from_port");
}

#[test]
fn render_path_handles_bare_top_level_attribute() {
    let path = vec![s("ami")];
    assert_eq!(render_path(&path), "ami");
}

#[test]
fn render_path_of_nothing_is_empty() {
    assert_eq!(render_path(&[]), "");
}

#[test]
fn render_path_leading_index_and_other_segments() {
    let path = vec![n("2"), s("a"), PathSegment::Other("true".to_string()), n("10")];
    assert_eq!(render_path(&path), "[2].a.true[10]");
    let path = vec![PathSegment::Other("null".to_string()), s("x")];
    assert_eq!(render_path(&path), "null.x");
}

#[test]
fn render_path_writes_no_dot_after_an_empty_start() {
    let path = vec![s(""), s("x")];
    assert_eq!(render_path(&path), "x");
}
