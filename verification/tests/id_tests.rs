use discmon::anchor::{Anchor, AnchorError, AsAnchor, TryAsAnchor};
use discmon::custom_id::{CustomId, IdError};

#[test]
fn new_identifier_renders_base_and_name() {
    let id = CustomId::new(String::from("btn"), String::from("roll"));
    assert_eq!(id.render().as_str(), "btn_roll");
}

#[test]
fn data_arguments_join_with_semicolons() {
    let mut id = CustomId::new(String::from("btn"), String::from("roll"));
    id.push_data("a").unwrap();
    id.push_data("bc").unwrap();
    assert_eq!(id.render().as_str(), "btn_roll;a;bc");
}

#[test]
fn try_resolve_splits_the_header() {
    let id = CustomId::try_resolve("btn_roll").unwrap();
    assert_eq!(id.base.as_str(), "btn");
    assert_eq!(id.name.as_str(), "roll");
    let id = CustomId::try_resolve("btn_roll_extra").unwrap();
    assert_eq!(id.base.as_str(), "btn");
    assert_eq!(id.name.as_str(), "roll");
    let id = CustomId::try_resolve("btn_").unwrap();
    assert_eq!(id.base.as_str(), "btn");
    assert_eq!(id.name.as_str(), "");
}

#[test]
fn try_resolve_rejects_headers_without_underscore() {
    let bad = CustomId::try_resolve("nounderscore");
    assert!(matches!(bad, Err(IdError::InvalidHeader)));
}

#[test]
fn push_data_enforces_the_length_cap() {
    let base: String = "b".repeat(40);
    let name: String = "n".repeat(20);
    let mut id = CustomId::new(base, name);
    assert_eq!(id.render().len(), 61);
    let too_long = id.push_data("abc");
    assert!(matches!(too_long, Err(IdError::TooLong)));
    assert_eq!(id.render().len(), 61);
    id.push_data("ab").unwrap();
    assert_eq!(id.render().len(), 64);
}

#[test]
fn guild_anchor_links_with_guild_segment() {
    let anchor = Anchor::new_guild(1, 2, 3);
    assert_eq!(anchor.link().as_str(), "https://discord.com/channels/1/2/3");
}

#[test]
fn private_anchor_links_without_guild_segment() {
    let anchor = Anchor::new_private(10, 20);
    assert_eq!(anchor.link().as_str(), "https://discord.com/channels/10/20");
}

#[test]
fn large_identifiers_render_in_full() {
    let anchor = Anchor::new(Some(18_446_744_073_709_551_615), 1_234_567_890_123, 42);
    assert_eq!(
        anchor.link().as_str(),
        "https://discord.com/channels/18446744073709551615/1234567890123/42"
    );
}

struct Pinned;

impl AsAnchor for Pinned {
    fn as_anchor(&self) -> Anchor {
        Anchor::new_private(1, 2)
    }
}

#[test]
fn as_anchor_values_are_anchored() {
    let pinned = Pinned;
    assert!(pinned.try_as_anchor().is_ok());
    assert!(pinned.is_anchored());
    assert!(!pinned.is_floating());
    assert_eq!(pinned.try_as_anchor().unwrap(), Anchor::new_private(1, 2));
}

struct Loose;

impl TryAsAnchor for Loose {
    fn try_as_anchor(&self) -> Result<Anchor, AnchorError> {
        Err(AnchorError::Floating)
    }
}

#[test]
fn unattached_values_are_floating() {
    let loose = Loose;
    assert!(matches!(loose.try_as_anchor(), Err(AnchorError::Floating)));
    assert!(!loose.is_anchored());
    assert!(loose.is_floating());
}
