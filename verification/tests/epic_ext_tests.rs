use wallet_lib::epic::Epic;
use wallet_lib::ext::{BoolExt, StringExt};
use wallet_lib::node::Node;
use wallet_lib::record::epic_to_record;
use wallet_lib::shortstring::{ShortString, ToShortString};

#[test]
fn test_epic1() {
    let e1 = Epic::new();
    assert_eq!("default", e1.handle());
    assert_eq!("Default", e1.title());
    assert_eq!("#ffffff", e1.bgcolor());
}

#[test]
fn test_epic_to_yaml1() {
    let e1 = Epic::new();
    let h1 = epic_to_record(&e1);

    if let Node::Dict(ref fields) = h1 {
        let handle = fields.iter().find(|p| p.0 == "handle").unwrap();
        if let Node::Str(ref val_ref) = handle.1 {
            assert_eq!("default", val_ref);
        } else {
            assert!(false);
        }

        let title = fields.iter().find(|p| p.0 == "title").unwrap();
        if let Node::Str(ref val_ref) = title.1 {
            assert_eq!("Default", val_ref);
        } else {
            assert!(false);
        }

        let bg = fields.iter().find(|p| p.0 == "bg_color").unwrap();
        if let Node::Str(ref val_ref) = bg.1 {
            assert_eq!("#ffffff", val_ref);
        } else {
            assert!(false);
        }
    } else {
        assert!(false);
    }
}

#[test]
fn test_strext_replace_comma1() {
    let s1 = "1,2".to_string();
    assert_eq!("1.2", s1.replace_comma());
}

#[test]
fn test_strext_to_num1() {
    let s1 = "1.3".to_string();
    assert_eq!(130, s1.to_num().unwrap());
}

#[test]
fn test_strext_to_num2() {
    let s1 = "1,3".to_string();
    assert_eq!(130, s1.replace_comma().to_num().unwrap());
}

#[test]
fn test_strext_to_yaml1() {
    let s1 = Node::Str("hello1".to_string());

    assert!(match s1 {
        Node::Str(s2) => {
            assert_eq!("hello1", s2);
            true
        },
        _ => false,
    });
}

#[test]
fn test_boolext_yn1() {
    let b1 = false;
    let x: String = b1.yn();
    assert_eq!("No", x);
    assert_eq!("No", b1.yn());
    assert_eq!("No", false.yn());
    assert!(!b1);
}

#[test]
fn test_boolext_yn2() {
    let b1 = true;
    let x: String = b1.yn();
    assert_eq!("YES", x);
    assert_eq!("YES", b1.yn());
    assert_eq!("YES", true.yn());
    assert!(b1);
}

#[test]
fn test_hash_toyaml() {
    let x = Node::Dict(Vec::new());

    assert!(match x {
        Node::Dict(_y) => true,
        _ => false,
    });
}

#[test]
fn test_to_short_string1() {
    let s1 = "ABCDEFGH".to_string().to_short_string(5);
    assert_eq!("AB...", s1.to_display_string());
}

#[test]
fn test_short_string1() {
    ShortString::new();
}

#[test]
fn test_short_string2() {
    let s1 = ShortString::from("ABCDEFGH".to_string(), 8);
    assert_eq!("ABCDEFGH", s1.to_display_string());
}

#[test]
fn test_short_string3() {
    let s1 = ShortString::from("ABCDEFGH".to_string(), 5);
    assert_eq!("AB...", s1.to_display_string());

    let s1 = ShortString::from("ABCDEFGH".to_string(), 4);
    assert_eq!("A...", s1.to_display_string());

    let s1 = ShortString::from("ABCDEFGH".to_string(), 3);
    assert_eq!("...", s1.to_display_string());

    let s1 = ShortString::from("ABCDEFGH".to_string(), 2);
    assert_eq!("ABCDEFGH", s1.to_display_string());
}
