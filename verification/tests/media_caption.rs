//! The media-caption rule, exercised case by case: audio-like and
//! video-like elements need a captioned track-like child unless muted, with
//! identities resolved through configuration, the component alias map and
//! the polymorphic prop.

use astwalk::Span;
use astwalk::ast::{
    Expression, JsxAttribute, JsxAttributeItem, JsxAttributeName, JsxAttributeValue, JsxChild,
    JsxElement, JsxElementName, JsxOpeningElement,
};
use astwalk::config::{Json, JsxA11ySettings};
use astwalk::media::MediaHasCaption;

fn sp(n: u32) -> Span {
    Span { start: n, end: n + 1 }
}

fn attr_str(name: &str, value: &str) -> JsxAttributeItem {
    JsxAttributeItem::Attr(JsxAttribute {
        name: JsxAttributeName::AttrIdent { name: name.to_string(), span: sp(1) },
        value: Some(JsxAttributeValue::AttrString { value: value.to_string(), span: sp(1) }),
        span: sp(1),
    })
}

fn attr_bool(name: &str, value: bool) -> JsxAttributeItem {
    JsxAttributeItem::Attr(JsxAttribute {
        name: JsxAttributeName::AttrIdent { name: name.to_string(), span: sp(2) },
        value: Some(JsxAttributeValue::AttrContainer {
            expression: Box::new(Expression::BooleanLit { value, span: sp(2) }),
            span: sp(2),
        }),
        span: sp(2),
    })
}

fn attr_bare(name: &str) -> JsxAttributeItem {
    JsxAttributeItem::Attr(JsxAttribute {
        name: JsxAttributeName::AttrIdent { name: name.to_string(), span: sp(3) },
        value: None,
        span: sp(3),
    })
}

fn media(name: &str, attrs: Vec<JsxAttributeItem>, children: Vec<JsxChild>) -> JsxElement {
    JsxElement {
        opening: JsxOpeningElement {
            name: JsxElementName::NameIdent { name: name.to_string(), span: sp(4) },
            attributes: attrs,
            span: sp(5),
        },
        children,
        span: sp(6),
    }
}

fn child_elem(name: &str, attrs: Vec<JsxAttributeItem>) -> JsxChild {
    JsxChild::ChildElement(Box::new(media(name, attrs, vec![])))
}

fn text_child() -> JsxChild {
    JsxChild::ChildText { span: sp(7) }
}

fn track(kind: Option<&str>) -> JsxChild {
    match kind {
        Some(k) => child_elem("track", vec![attr_str("kind", k)]),
        None => child_elem("track", vec![]),
    }
}

/// The per-rule configuration `{"audio": ["Audio"], "video": ["Video"], "track": ["Track"]}`.
fn config() -> MediaHasCaption {
    let value = Json::JsonObject {
        entries: vec![
            (
                "audio".to_string(),
                Json::JsonArray { items: vec![Json::JsonString { value: "Audio".to_string() }] },
            ),
            (
                "video".to_string(),
                Json::JsonArray { items: vec![Json::JsonString { value: "Video".to_string() }] },
            ),
            (
                "track".to_string(),
                Json::JsonArray { items: vec![Json::JsonString { value: "Track".to_string() }] },
            ),
        ],
    };
    MediaHasCaption::from_configuration(&value)
}

/// The toolchain settings `polymorphicPropName: "as"`, components
/// `{Audio: audio, Video: video, Track: track}`.
fn settings() -> JsxA11ySettings {
    JsxA11ySettings {
        polymorphic_prop_name: Some("as".to_string()),
        components: vec![
            ("Audio".to_string(), "audio".to_string()),
            ("Video".to_string(), "video".to_string()),
            ("Track".to_string(), "track".to_string()),
        ],
    }
}

fn passes(rule: &MediaHasCaption, el: &JsxElement, st: &JsxA11ySettings) -> bool {
    rule.check_element(el, st).is_none()
}

#[test]
fn media_has_caption_test() {
    let default_rule = MediaHasCaption::default();
    let cfg = config();
    let st = settings();
    let none = JsxA11ySettings::empty();

    // --- pass ---
    assert!(passes(&default_rule, &media("div", vec![], vec![]), &none));
    assert!(passes(&default_rule, &media("MyDiv", vec![], vec![]), &none));
    assert!(passes(&default_rule, &media("audio", vec![], vec![track(Some("captions"))]), &none));
    assert!(passes(&default_rule, &media("audio", vec![], vec![track(Some("Captions"))]), &none));
    assert!(passes(
        &default_rule,
        &media("audio", vec![], vec![track(Some("Captions")), track(Some("subtitles"))]),
        &none
    ));
    assert!(passes(&default_rule, &media("video", vec![], vec![track(Some("captions"))]), &none));
    assert!(passes(&default_rule, &media("video", vec![], vec![track(Some("Captions"))]), &none));
    assert!(passes(
        &default_rule,
        &media("video", vec![], vec![track(Some("Captions")), track(Some("subtitles"))]),
        &none
    ));
    assert!(passes(&default_rule, &media("audio", vec![attr_bool("muted", true)], vec![]), &none));
    assert!(passes(&default_rule, &media("video", vec![attr_bool("muted", true)], vec![]), &none));
    assert!(passes(&default_rule, &media("video", vec![attr_bare("muted")], vec![]), &none));
    // with the rule configuration: aliased tags
    assert!(passes(&cfg, &media("Audio", vec![], vec![track(Some("captions"))]), &none));
    assert!(passes(
        &cfg,
        &media("audio", vec![], vec![child_elem("Track", vec![attr_str("kind", "captions")])]),
        &none
    ));
    assert!(passes(&cfg, &media("Video", vec![], vec![track(Some("captions"))]), &none));
    assert!(passes(
        &cfg,
        &media("video", vec![], vec![child_elem("Track", vec![attr_str("kind", "captions")])]),
        &none
    ));
    assert!(passes(
        &cfg,
        &media("Audio", vec![], vec![child_elem("Track", vec![attr_str("kind", "captions")])]),
        &none
    ));
    assert!(passes(
        &cfg,
        &media("Video", vec![], vec![child_elem("Track", vec![attr_str("kind", "captions")])]),
        &none
    ));
    assert!(passes(&cfg, &media("Video", vec![attr_bare("muted")], vec![]), &none));
    assert!(passes(&cfg, &media("Video", vec![attr_bool("muted", true)], vec![]), &none));
    assert!(passes(&cfg, &media("Audio", vec![attr_bare("muted")], vec![]), &none));
    assert!(passes(&cfg, &media("Audio", vec![attr_bool("muted", true)], vec![]), &none));
    // with the toolchain settings: component aliases
    assert!(passes(&default_rule, &media("Audio", vec![], vec![track(Some("captions"))]), &st));
    assert!(passes(
        &default_rule,
        &media("audio", vec![], vec![child_elem("Track", vec![attr_str("kind", "captions")])]),
        &st
    ));
    assert!(passes(&default_rule, &media("Video", vec![], vec![track(Some("captions"))]), &st));
    assert!(passes(
        &default_rule,
        &media("video", vec![], vec![child_elem("Track", vec![attr_str("kind", "captions")])]),
        &st
    ));
    assert!(passes(
        &default_rule,
        &media("Audio", vec![], vec![child_elem("Track", vec![attr_str("kind", "captions")])]),
        &st
    ));
    assert!(passes(
        &default_rule,
        &media("Video", vec![], vec![child_elem("Track", vec![attr_str("kind", "captions")])]),
        &st
    ));
    assert!(passes(&default_rule, &media("Video", vec![attr_bare("muted")], vec![]), &st));
    assert!(passes(&default_rule, &media("Video", vec![attr_bool("muted", true)], vec![]), &st));
    assert!(passes(&default_rule, &media("Audio", vec![attr_bare("muted")], vec![]), &st));
    assert!(passes(&default_rule, &media("Audio", vec![attr_bool("muted", true)], vec![]), &st));
    // <Box as='audio' muted={true}></Box> under the polymorphic prop
    assert!(passes(
        &default_rule,
        &media("Box", vec![attr_str("as", "audio"), attr_bool("muted", true)], vec![]),
        &st
    ));

    // --- fail ---
    assert!(!passes(&default_rule, &media("audio", vec![], vec![track(None)]), &none));
    assert!(!passes(&default_rule, &media("audio", vec![], vec![track(Some("subtitles"))]), &none));
    assert!(!passes(&default_rule, &media("audio", vec![], vec![]), &none));
    assert!(!passes(&default_rule, &media("video", vec![], vec![track(None)]), &none));
    assert!(!passes(&default_rule, &media("video", vec![], vec![track(Some("subtitles"))]), &none));
    assert!(!passes(&cfg, &media("Audio", vec![attr_bool("muted", false)], vec![]), &none));
    assert!(!passes(&cfg, &media("Video", vec![attr_bool("muted", false)], vec![]), &none));
    assert!(!passes(&default_rule, &media("Audio", vec![attr_bool("muted", false)], vec![]), &st));
    assert!(!passes(&default_rule, &media("Video", vec![attr_bool("muted", false)], vec![]), &st));
    assert!(!passes(&default_rule, &media("video", vec![], vec![]), &none));
    assert!(!passes(&default_rule, &media("audio", vec![], vec![text_child()]), &none));
    assert!(!passes(&default_rule, &media("video", vec![], vec![text_child()]), &none));
    assert!(!passes(&cfg, &media("Audio", vec![], vec![]), &none));
    assert!(!passes(&cfg, &media("Video", vec![], vec![]), &none));
    assert!(!passes(&default_rule, &media("Audio", vec![], vec![]), &st));
    assert!(!passes(&default_rule, &media("Video", vec![], vec![]), &st));
    assert!(!passes(&cfg, &media("audio", vec![], vec![child_elem("Track", vec![])]), &none));
    assert!(!passes(&cfg, &media("video", vec![], vec![child_elem("Track", vec![])]), &none));
    assert!(!passes(
        &cfg,
        &media("Audio", vec![], vec![child_elem("Track", vec![attr_str("kind", "subtitles")])]),
        &none
    ));
    assert!(!passes(
        &cfg,
        &media("Video", vec![], vec![child_elem("Track", vec![attr_str("kind", "subtitles")])]),
        &none
    ));
    assert!(!passes(
        &default_rule,
        &media("Audio", vec![], vec![child_elem("Track", vec![attr_str("kind", "subtitles")])]),
        &st
    ));
    assert!(!passes(
        &default_rule,
        &media("Video", vec![], vec![child_elem("Track", vec![attr_str("kind", "subtitles")])]),
        &st
    ));
    assert!(!passes(
        &default_rule,
        &media(
            "Box",
            vec![attr_str("as", "audio")],
            vec![child_elem("Track", vec![attr_str("kind", "subtitles")])]
        ),
        &st
    ));
}

#[test]
fn empty_media_element_is_diagnosed_at_its_opening_tag() {
    // <audio></audio>: one finding, at the opening tag's span
    let rule = MediaHasCaption::default();
    let el = media("audio", vec![], vec![]);
    assert_eq!(rule.check_element(&el, &JsxA11ySettings::empty()), Some(sp(5)));
    // with a non-captioned child the finding moves to the element's own span
    let el2 = media("audio", vec![], vec![track(Some("subtitles"))]);
    assert_eq!(rule.check_element(&el2, &JsxA11ySettings::empty()), Some(sp(6)));
}

#[test]
fn configuration_ignores_unrecognized_and_wrong_typed_values() {
    // `audio` of the wrong type is ignored; a non-string item is skipped; an
    // unknown key changes nothing
    let value = Json::JsonObject {
        entries: vec![
            ("audio".to_string(), Json::JsonString { value: "Loud".to_string() }),
            (
                "video".to_string(),
                Json::JsonArray {
                    items: vec![Json::JsonNumber, Json::JsonString { value: "Video".to_string() }],
                },
            ),
            ("subtitles".to_string(), Json::JsonBool { value: true }),
        ],
    };
    let rule = MediaHasCaption::from_configuration(&value);
    assert_eq!(rule.0.audio, vec!["audio".to_string()]);
    assert_eq!(rule.0.video, vec!["video".to_string(), "Video".to_string()]);
    assert_eq!(rule.0.track, vec!["track".to_string()]);
}
