use hazel::template::{Part, Qualifier, Template};
use hazel::vocabulary::{Comparator, Modifier, Specifier, Token, Unit};

#[test]
fn parse_builds_components_and_parts() {
    let t = Template::parse("/{year:created:uppercase}-x/{size:a:lt:2:K,b:gt:3:Q}").expect("parses");
    assert_eq!(t.components.len(), 3);
    assert!(t.components[0].is_empty());
    let c = &t.components[1];
    assert_eq!(c.len(), 2);
    match &c[0] {
        Part::Variable(v) => {
            assert!(matches!(v.token, Token::Year));
            assert_eq!(v.qualifiers.len(), 2);
            assert!(matches!(v.qualifiers[0], Qualifier::Specifier(Specifier::Created)));
            assert!(matches!(v.qualifiers[1], Qualifier::Modifier(Modifier::UpperCase)));
            assert_eq!(v.specifier(), Some(Specifier::Created));
        }
        _ => panic!("expected a variable"),
    }
    assert!(matches!(&c[1], Part::Text(t) if t == "-x"));
    match &t.components[2][0] {
        Part::Variable(v) => {
            assert!(matches!(v.token, Token::Size));
            match &v.qualifiers[0] {
                Qualifier::Thresholds(ts) => {
                    assert_eq!(ts.len(), 2);
                    assert_eq!(ts[0].name, "a");
                    assert_eq!(ts[0].comparator, Comparator::Less);
                    assert_eq!(ts[0].amount, 2);
                    assert_eq!(ts[0].unit, Unit::Kibibytes);
                    assert_eq!(ts[1].name, "b");
                    assert_eq!(ts[1].comparator, Comparator::Greater);
                    assert_eq!(ts[1].unit, Unit::Unknown);
                    assert_eq!(ts[1].unit.multiplier(), 0);
                }
                _ => panic!("expected buckets"),
            }
        }
        _ => panic!("expected a variable"),
    }
}

#[test]
fn qualifiers_are_classified_independently() {
    let t = Template::parse("{month:names:modified}{kind:whatever}").expect("parses");
    let c = &t.components[0];
    match &c[0] {
        Part::Variable(v) => {
            assert!(matches!(v.qualifiers[0], Qualifier::Modifier(Modifier::Names)));
            assert!(matches!(v.qualifiers[1], Qualifier::Specifier(Specifier::Modified)));
        }
        _ => panic!("expected a variable"),
    }
    match &c[1] {
        Part::Variable(v) => {
            assert!(matches!(v.token, Token::Kind));
            assert!(matches!(v.qualifiers[0], Qualifier::Ignored));
        }
        _ => panic!("expected a variable"),
    }
}

#[test]
fn at_most_two_qualifiers() {
    assert!(Template::parse("{year:created:lowercase:names}").is_none());
    assert!(Template::parse("{size:a:gt:1:K:created:lowercase}").is_none());
    assert!(Template::parse("{size:a:gt:1:K:created}").is_some());
}

#[test]
fn unit_multipliers() {
    assert_eq!(Unit::Bytes.multiplier(), 1);
    assert_eq!(Unit::Kibibytes.multiplier(), 1024);
    assert_eq!(Unit::Mebibytes.multiplier(), 1048576);
    assert_eq!(Unit::Gibibytes.multiplier(), 1073741824);
}

#[test]
fn unicode_literal_text() {
    let item = hazel::item::Item {
        path: "/p/a".to_string(),
        name: "a".to_string(),
        entry: hazel::item::EntryKind::File,
        size: 1,
        created: hazel::item::TimeStamp::Unavailable,
        modified: hazel::item::TimeStamp::Unavailable,
        accessed: hazel::item::TimeStamp::Unavailable,
        kind: None,
        media: None,
    };
    assert_eq!(hazel::render::parse_pattern("Фото/été", &item).unwrap(), vec!["Фото", "été"]);
}

#[test]
fn template_mentions_tokens() {
    let t = Template::parse("a/{width}x{year:created}/{size:s:lt:1:K}").expect("parses");
    assert!(t.mentions(Token::Width));
    assert!(t.mentions(Token::Year));
    assert!(t.mentions(Token::Size));
    assert!(!t.mentions(Token::Height));
    assert!(!Template::parse("plain/text").expect("parses").mentions(Token::Width));
}
