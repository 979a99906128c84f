use zekuromu::data::{DataKey, DataKeyPath};
use zekuromu::expr::Reference;
use zekuromu::path::PathError;

fn path(keys: &[&str]) -> DataKeyPath {
    DataKeyPath(keys.iter().map(|k| DataKey(k.to_string())).collect())
}

#[test]
fn reference_text_is_split_on_dots() {
    assert_eq!(DataKeyPath::parse("a.b.c"), Ok(path(&["a", "b", "c"])));
    assert_eq!(DataKeyPath::parse("a.\"b.c\".d"), Ok(path(&["a", "b.c", "d"])));
    assert_eq!(DataKeyPath::parse("a.\"b"), Err(PathError::UnterminatedQuote));
}

#[test]
fn reference_text_edge_cases() {
    assert_eq!(DataKeyPath::parse(""), Ok(path(&[""])));
    assert_eq!(DataKeyPath::parse("a..b"), Ok(path(&["a", "", "b"])));
    assert_eq!(DataKeyPath::parse("a."), Ok(path(&["a", ""])));
    assert_eq!(DataKeyPath::parse("\"x\"y"), Ok(path(&["xy"])));
    assert_eq!(
        DataKeyPath::parse("abc.d.e..f.\"g.h\".ij"),
        Ok(path(&["abc", "d", "e", "", "f", "g.h", "ij"]))
    );
    assert_eq!(DataKeyPath::parse("\""), Err(PathError::UnterminatedQuote));
}

#[test]
fn path_constructors() {
    assert_eq!(DataKeyPath::empty(), path(&[]));
    assert_eq!(DataKeyPath::from_key(DataKey::from_text("k")), path(&["k"]));
    let r = Reference(vec!["a".to_owned(), "b".to_owned()]);
    assert_eq!(DataKeyPath::from_reference(&r), path(&["a", "b"]));
}

#[test]
fn key_as_index() {
    assert_eq!(DataKey::from_text("0").to_index(), Ok(0));
    assert_eq!(DataKey::from_text("42").to_index(), Ok(42));
    assert_eq!(DataKey::from_text("+7").to_index(), Ok(7));
    assert_eq!(DataKey::from_text("007").to_index(), Ok(7));
    assert_eq!(DataKey::from_text("").to_index(), Err(PathError::NotANumber));
    assert_eq!(DataKey::from_text("+").to_index(), Err(PathError::NotANumber));
    assert_eq!(DataKey::from_text("-1").to_index(), Err(PathError::NotANumber));
    assert_eq!(DataKey::from_text("1a").to_index(), Err(PathError::NotANumber));
    assert_eq!(DataKey::from_text("a").to_index(), Err(PathError::NotANumber));
    let max = usize::MAX.to_string();
    assert_eq!(DataKey::from_text(&max).to_index(), Ok(usize::MAX));
    let over = format!("{}0", usize::MAX);
    assert_eq!(DataKey::from_text(&over).to_index(), Err(PathError::NotANumber));
}

#[test]
fn key_from_index() {
    assert_eq!(DataKey::from_index(0), DataKey("0".to_owned()));
    assert_eq!(DataKey::from_index(305), DataKey("305".to_owned()));
    assert_eq!(DataKey::from_index(usize::MAX), DataKey(usize::MAX.to_string()));
}

#[test]
fn path_display() {
    assert_eq!(path(&["a", "b"]).to_string(), "\"a\".\"b\"");
    assert_eq!(path(&["a"]).to_string(), "\"a\"");
    assert_eq!(path(&[]).to_string(), "\"\"");
}
