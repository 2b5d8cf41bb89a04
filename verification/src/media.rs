//! The media-caption requirement: audio-like and video-like elements must
//! contain a track-like child captioned for accessibility, unless muted.
//! Tag identity is resolved through the polymorphic prop and the
//! custom-component alias mapping before the requirement applies.

use vstd::prelude::*;
use crate::Span;
use crate::ast::{JsxElement, JsxOpeningElement, JsxAttribute, JsxAttributeItem, JsxChild,
    JsxAttributeName, JsxAttributeValue, JsxElementName, Expression};
use crate::model::{ElementM, OpeningM, AttrM, AttrItemM, ChildM, AttrNameM, AttrValueM,
    ElemNameM, ExprM, attrs_model, children_model};
use crate::config::{Json, JsonM, JsxA11ySettings, SettingsM, json_get, strings_model,
    alias_lookup, lookup_alias};
use crate::casing::{lower_of, lowercase_eq};
use crate::diagnostics::{Diagnostic, DiagM, Severity, Label, LabelM, diags_model};
use crate::binding::clone_string;
use crate::scope::compare_str;

verus! {

/// Per-rule alias lists for the three tag classes. Each configured list
/// extends, not replaces, the built-in default for its class.
#[derive(Debug, Clone)]
pub struct MediaHasCaptionConfig {
    pub audio: Vec<String>,
    pub video: Vec<String>,
    pub track: Vec<String>,
}

/// The model of a [`MediaHasCaptionConfig`].
#[verifier::ext_equal]
pub ghost struct MediaConfigM {
    pub audio: Seq<Seq<char>>,
    pub video: Seq<Seq<char>>,
    pub track: Seq<Seq<char>>,
}

impl MediaHasCaptionConfig {
    pub open spec fn model(self) -> MediaConfigM {
        MediaConfigM {
            audio: strings_model(self.audio@),
            video: strings_model(self.video@),
            track: strings_model(self.track@),
        }
    }
}

/// The built-in defaults: the literal tag names themselves.
pub open spec fn default_media_config() -> MediaConfigM {
    MediaConfigM {
        audio: seq!["audio"@],
        video: seq!["video"@],
        track: seq!["track"@],
    }
}

impl Default for MediaHasCaptionConfig {
    /// The built-in defaults: the literal tag names themselves.
    fn default() -> (r: MediaHasCaptionConfig)
        ensures
            r.model() == default_media_config(),
    {
        let mut audio: Vec<String> = Vec::new();
        audio.push("audio".to_owned());
        let mut video: Vec<String> = Vec::new();
        video.push("video".to_owned());
        let mut track: Vec<String> = Vec::new();
        track.push("track".to_owned());
        let r = MediaHasCaptionConfig { audio, video, track };
        proof {
            assert(strings_model(r.audio@) =~= seq!["audio"@]);
            assert(strings_model(r.video@) =~= seq!["video"@]);
            assert(strings_model(r.track@) =~= seq!["track"@]);
        }
        r
    }
}

/// The media-caption rule, holding its configuration.
#[derive(Debug, Clone)]
pub struct MediaHasCaption(pub Box<MediaHasCaptionConfig>);

impl MediaHasCaption {
    pub open spec fn model(self) -> MediaConfigM {
        (*self.0).model()
    }
}

impl Default for MediaHasCaption {
    /// The rule under its built-in defaults.
    fn default() -> (r: MediaHasCaption)
        ensures
            r.model() == default_media_config(),
    {
        MediaHasCaption(Box::new(MediaHasCaptionConfig::default()))
    }
}

// --- configuration parsing ---

/// The string items of a configured list, in order; items of any other
/// type are ignored.
pub open spec fn strings_of(items: Seq<JsonM>) -> Seq<Seq<char>>
    decreases items.len(),
{
    if items.len() == 0 {
        Seq::<Seq<char>>::empty()
    } else {
        let rest = strings_of(items.drop_first());
        match items[0] {
            JsonM::JsonString { value } => seq![value] + rest,
            _ => rest,
        }
    }
}

/// What a configured key contributes: the string items of its array value,
/// or nothing when the key is missing or of the wrong type.
pub open spec fn key_strings(v: JsonM, key: Seq<char>) -> Seq<Seq<char>> {
    match json_get(v, key) {
        Some(JsonM::JsonArray { items }) => strings_of(items),
        _ => Seq::<Seq<char>>::empty(),
    }
}

/// The configuration a value denotes: the defaults, each class extended by
/// the string items configured under its key. Unrecognized keys and
/// wrong-typed values are ignored.
pub open spec fn media_config_of(v: JsonM) -> MediaConfigM {
    MediaConfigM {
        audio: seq!["audio"@] + key_strings(v, "audio"@),
        video: seq!["video"@] + key_strings(v, "video"@),
        track: seq!["track"@] + key_strings(v, "track"@),
    }
}

/// Appends the string items under `key` in `value` to `list`.
fn extend_from_key(list: &mut Vec<String>, value: &Json, key: &str)
    ensures
        strings_model(final(list)@) == strings_model(old(list)@) + key_strings(
            value.model(),
            key@,
        ),
{
    let got = value.get(key);
    match got {
        Some(Json::JsonArray { items }) => {
            let n = items.len();
            let mut i: usize = 0;
            let ghost jm = crate::config::jsons_model(items@);
            proof {
                assert(jm.skip(0) =~= jm);
                assert(strings_model(list@) + strings_of(jm) == strings_model(old(list)@)
                    + key_strings(value.model(), key@));
            }
            while i < n
                invariant
                    n == items@.len(),
                    i <= n,
                    jm == crate::config::jsons_model(items@),
                    jm.len() == n,
                    strings_model(list@) + strings_of(jm.skip(i as int)) == strings_model(
                        old(list)@,
                    ) + key_strings(value.model(), key@),
                decreases n - i,
            {
                proof {
                    assert(jm.skip(i as int)[0] == jm[i as int]);
                    assert(jm.skip(i as int).drop_first() =~= jm.skip(i as int + 1));
                }
                match &items[i] {
                    Json::JsonString { value: s } => {
                        let ghost before = list@;
                        list.push(clone_string(s));
                        proof {
                            assert(strings_model(list@) =~= strings_model(before) + seq![s@]);
                            assert(strings_model(before) + (seq![s@] + strings_of(
                                jm.skip(i as int + 1),
                            )) =~= (strings_model(before) + seq![s@]) + strings_of(
                                jm.skip(i as int + 1),
                            ));
                        }
                    },
                    _ => {},
                }
                i = i + 1;
            }
            proof {
                assert(strings_of(jm.skip(n as int)) =~= Seq::<Seq<char>>::empty());
                assert(strings_model(list@) + Seq::<Seq<char>>::empty() =~= strings_model(
                    list@,
                ));
            }
        },
        _ => {},
    }
}

impl MediaHasCaption {
    /// Reads the rule's configuration from a loosely-typed value: each of
    /// the keys `audio`, `video` and `track` may extend its class's alias
    /// list with string items; anything else is ignored.
    pub fn from_configuration(value: &Json) -> (r: MediaHasCaption)
        ensures
            r.model() == media_config_of(value.model()),
    {
        let mut config = MediaHasCaptionConfig::default();
        extend_from_key(&mut config.audio, value, "audio");
        extend_from_key(&mut config.video, value, "video");
        extend_from_key(&mut config.track, value, "track");
        let r = MediaHasCaption(Box::new(config));
        proof {
            assert(r.model() =~= media_config_of(value.model()));
        }
        r
    }
}

// --- effective tag names ---

/// The first named attribute called `name`, or none.
pub open spec fn attr_find(attrs: Seq<AttrItemM>, name: Seq<char>) -> Option<AttrM>
    decreases attrs.len(),
{
    if attrs.len() == 0 {
        None
    } else {
        match attrs[0] {
            AttrItemM::Attr(a) => match a.name {
                AttrNameM::AttrIdent { name: n, .. } => if n == name {
                    Some(a)
                } else {
                    attr_find(attrs.drop_first(), name)
                },
                _ => attr_find(attrs.drop_first(), name),
            },
            _ => attr_find(attrs.drop_first(), name),
        }
    }
}

/// The literal string value of the polymorphic prop, if the prop is present
/// with one.
pub open spec fn polymorphic_name(opening: OpeningM, prop: Seq<char>) -> Option<Seq<char>> {
    match attr_find(opening.attributes, prop) {
        Some(a) => match a.value {
            Some(AttrValueM::AttrString { value, .. }) => Some(value),
            _ => None,
        },
        None => None,
    }
}

/// The effective name of an element: the polymorphic prop's literal value
/// when configured and present, else the literal tag identifier; then
/// mapped through the custom-component alias table. An element whose tag is
/// not a plain identifier has the empty effective name.
pub open spec fn mapped_element_name(opening: OpeningM, st: SettingsM) -> Seq<char> {
    match opening.name {
        ElemNameM::NameIdent { name, .. } => {
            let base = match st.polymorphic_prop_name {
                Some(prop) => match polymorphic_name(opening, prop) {
                    Some(v) => v,
                    None => name,
                },
                None => name,
            };
            match alias_lookup(st.components, base) {
                Some(mapped) => mapped,
                None => base,
            }
        },
        ElemNameM::NameOther { .. } => Seq::<char>::empty(),
    }
}

/// Finds the first named attribute called `name`.
pub fn find_attribute<'a>(attrs: &'a Vec<JsxAttributeItem>, name: &str) -> (r: Option<
    &'a JsxAttribute,
>)
    ensures
        match r {
            Some(a) => attr_find(attrs_model(attrs@), name@) == Some(a.model()),
            None => attr_find(attrs_model(attrs@), name@) is None,
        },
{
    let n = attrs.len();
    let mut i: usize = 0;
    let ghost am = attrs_model(attrs@);
    proof {
        assert(am.skip(0) =~= am);
    }
    while i < n
        invariant
            n == attrs@.len(),
            i <= n,
            am == attrs_model(attrs@),
            am.len() == n,
            attr_find(am, name@) == attr_find(am.skip(i as int), name@),
        decreases n - i,
    {
        proof {
            assert(am.skip(i as int)[0] == am[i as int]);
            assert(am.skip(i as int).drop_first() =~= am.skip(i as int + 1));
        }
        match &attrs[i] {
            JsxAttributeItem::Attr(a) => {
                match &a.name {
                    JsxAttributeName::AttrIdent { name: n2, .. } => {
                        if compare_str(n2.as_str(), name) {
                            return Some(a);
                        }
                    },
                    _ => {},
                }
            },
            _ => {},
        }
        i = i + 1;
    }
    proof {
        assert(am.skip(n as int).len() == 0);
    }
    None
}

/// The effective name of an element (executable form).
pub fn mapped_element_name_of(opening: &JsxOpeningElement, st: &JsxA11ySettings) -> (r: String)
    ensures
        r@ == mapped_element_name(opening.model(), st.model()),
{
    match &opening.name {
        JsxElementName::NameIdent { name, .. } => {
            let mut base: String = clone_string(name);
            match &st.polymorphic_prop_name {
                Some(prop) => {
                    match find_attribute(&opening.attributes, prop.as_str()) {
                        Some(a) => {
                            match &a.value {
                                Some(JsxAttributeValue::AttrString { value, .. }) => {
                                    base = clone_string(value);
                                },
                                _ => {},
                            }
                        },
                        None => {},
                    }
                },
                None => {},
            }
            match lookup_alias(&st.components, base.as_str()) {
                Some(alias) => clone_string(alias),
                None => base,
            }
        },
        JsxElementName::NameOther { .. } => String::new(),
    }
}

// --- the requirement itself ---

/// Whether one attribute is a `muted` attribute carrying a true value: a
/// true boolean literal, the literal string `"true"`, or bare presence.
pub open spec fn attr_is_muted_true(item: AttrItemM) -> bool {
    match item {
        AttrItemM::Attr(a) => match a.name {
            AttrNameM::AttrIdent { name, .. } => name == "muted"@ && match a.value {
                Some(AttrValueM::AttrContainer { expression, .. }) => match *expression {
                    ExprM::BooleanLit { value, .. } => value,
                    _ => false,
                },
                Some(AttrValueM::AttrString { value, .. }) => value == "true"@,
                Some(AttrValueM::AttrEmptyContainer { .. }) => false,
                None => true,
            },
            _ => false,
        },
        _ => false,
    }
}

/// Whether the attribute list mutes the element.
pub open spec fn has_muted(attrs: Seq<AttrItemM>) -> bool {
    exists|i: int| 0 <= i < attrs.len() && attr_is_muted_true(#[trigger] attrs[i])
}

/// Whether one attribute is a `kind` attribute whose literal string value
/// case-insensitively equals `captions`.
pub open spec fn attr_is_caption_kind(item: AttrItemM) -> bool {
    match item {
        AttrItemM::Attr(a) => match a.name {
            AttrNameM::AttrIdent { name, .. } => match a.value {
                Some(AttrValueM::AttrString { value, .. }) => name == "kind"@ && lower_of(value)
                    == "captions"@,
                _ => false,
            },
            _ => false,
        },
        _ => false,
    }
}

/// Whether one child is a track-like element carrying captions.
#[verifier::opaque]
pub open spec fn child_is_caption_track(child: ChildM, cfg: MediaConfigM, st: SettingsM) -> bool {
    match child {
        ChildM::ChildElement(el) => cfg.track.contains(mapped_element_name(el.opening, st))
            && exists|i: int|
            0 <= i < el.opening.attributes.len() && attr_is_caption_kind(
                #[trigger] el.opening.attributes[i],
            ),
        _ => false,
    }
}

/// The rule's finding for one element: the span to diagnose, or none.
/// An element outside the audio and video classes, or muted, needs nothing.
/// One with no children at all is diagnosed at its opening tag; one whose
/// children include no captioned track-like element is diagnosed at its own
/// span.
#[verifier::opaque]
pub open spec fn media_finding(cfg: MediaConfigM, el: ElementM, st: SettingsM) -> Option<Span> {
    let name = mapped_element_name(el.opening, st);
    if !(cfg.audio.contains(name) || cfg.video.contains(name)) {
        None
    } else if has_muted(el.opening.attributes) {
        None
    } else if el.children.len() == 0 {
        Some(el.opening.span)
    } else if exists|i: int|
        0 <= i < el.children.len() && child_is_caption_track(#[trigger] el.children[i], cfg, st) {
        None
    } else {
        Some(el.span)
    }
}

/// The diagnostic the rule emits at `span`.
pub open spec fn media_caption_diag(span: Span) -> DiagM {
    DiagM {
        message: "eslint-plugin-jsx-a11y(media-has-caption): Missing <track> element with captions inside <audio> or <video> element"@,
        severity: Severity::Warning,
        help: Some(
            "Media elements such as <audio> and <video> must have a <track> for captions."@,
        ),
        labels: seq![LabelM { span, note: None::<Seq<char>> }],
    }
}

/// The diagnostics the rule emits for one element: one at the finding's
/// span, or none.
pub open spec fn media_diags(cfg: MediaConfigM, el: ElementM, st: SettingsM) -> Seq<DiagM> {
    match media_finding(cfg, el, st) {
        Some(span) => seq![media_caption_diag(span)],
        None => Seq::<DiagM>::empty(),
    }
}

/// Builds the rule's diagnostic at `span`.
fn make_media_diag(span: Span) -> (r: Diagnostic)
    ensures
        r.model() == media_caption_diag(span),
{
    let mut labels: Vec<Label> = Vec::new();
    labels.push(Label { span, note: None });
    let r = Diagnostic {
        message: "eslint-plugin-jsx-a11y(media-has-caption): Missing <track> element with captions inside <audio> or <video> element".to_owned(),
        severity: Severity::Warning,
        help: Some(
            "Media elements such as <audio> and <video> must have a <track> for captions.".to_owned(),
        ),
        labels,
    };
    proof {
        assert(r.model().labels =~= media_caption_diag(span).labels);
        assert(r.model() =~= media_caption_diag(span));
    }
    r
}

/// Whether one attribute is a `muted` attribute carrying a true value.
fn attr_muted_true(item: &JsxAttributeItem) -> (r: bool)
    ensures
        r == attr_is_muted_true(item.model()),
{
    match item {
        JsxAttributeItem::Attr(a) => match &a.name {
            JsxAttributeName::AttrIdent { name, .. } => {
                if !compare_str(name.as_str(), "muted") {
                    return false;
                }
                match &a.value {
                    Some(JsxAttributeValue::AttrContainer { expression, .. }) => {
                        match &**expression {
                            Expression::BooleanLit { value, .. } => *value,
                            _ => false,
                        }
                    },
                    Some(JsxAttributeValue::AttrString { value, .. }) => compare_str(
                        value.as_str(),
                        "true",
                    ),
                    Some(JsxAttributeValue::AttrEmptyContainer { .. }) => false,
                    None => true,
                }
            },
            _ => false,
        },
        _ => false,
    }
}

/// Whether one attribute is a `kind` attribute whose literal string value
/// case-insensitively equals `captions`.
fn attr_caption_kind(item: &JsxAttributeItem) -> (r: bool)
    ensures
        r == attr_is_caption_kind(item.model()),
{
    match item {
        JsxAttributeItem::Attr(a) => match &a.name {
            JsxAttributeName::AttrIdent { name, .. } => match &a.value {
                Some(JsxAttributeValue::AttrString { value, .. }) => {
                    let is_kind = compare_str(name.as_str(), "kind");
                    if !is_kind {
                        false
                    } else {
                        lowercase_eq(value.as_str(), "captions")
                    }
                },
                _ => false,
            },
            _ => false,
        },
        _ => false,
    }
}

/// Whether the attribute list mutes the element (executable form).
fn has_muted_attr(attrs: &Vec<JsxAttributeItem>) -> (r: bool)
    ensures
        r == has_muted(attrs_model(attrs@)),
{
    let n = attrs.len();
    let mut i: usize = 0;
    while i < n
        invariant
            n == attrs@.len(),
            i <= n,
            forall|j: int| 0 <= j < i ==> !attr_is_muted_true(#[trigger] attrs_model(attrs@)[j]),
        decreases n - i,
    {
        if attr_muted_true(&attrs[i]) {
            proof {
                assert(attr_is_muted_true(attrs_model(attrs@)[i as int]));
            }
            return true;
        }
        i = i + 1;
    }
    false
}

/// Whether some attribute is a captioned `kind` attribute.
fn has_caption_kind_attr(attrs: &Vec<JsxAttributeItem>) -> (r: bool)
    ensures
        r == exists|i: int|
            0 <= i < attrs_model(attrs@).len() && attr_is_caption_kind(
                #[trigger] attrs_model(attrs@)[i],
            ),
{
    let n = attrs.len();
    let mut i: usize = 0;
    while i < n
        invariant
            n == attrs@.len(),
            i <= n,
            forall|j: int| 0 <= j < i ==> !attr_is_caption_kind(
                #[trigger] attrs_model(attrs@)[j],
            ),
        decreases n - i,
    {
        if attr_caption_kind(&attrs[i]) {
            proof {
                assert(attr_is_caption_kind(attrs_model(attrs@)[i as int]));
            }
            return true;
        }
        i = i + 1;
    }
    false
}

/// Whether one child is a track-like element carrying captions
/// (executable form).
#[verifier::rlimit(60)]
fn child_caption_track(child: &JsxChild, cfg: &MediaHasCaption, st: &JsxA11ySettings) -> (r: bool)
    ensures
        r == child_is_caption_track(child.model(), cfg.model(), st.model()),
{
    match child {
        JsxChild::ChildElement(el) => {
            let name = mapped_element_name_of(&el.opening, st);
            let in_track = list_contains(&cfg.0.track, name.as_str());
            let r = if in_track {
                has_caption_kind_attr(&el.opening.attributes)
            } else {
                false
            };
            proof {
                reveal(child_is_caption_track);
                assert(child.model() matches ChildM::ChildElement(b) && *b == (**el).model());
                assert((**el).model().opening == el.opening.model());
                assert(cfg.model().track == strings_model(cfg.0.track@));
                assert((**el).model().opening.attributes == attrs_model(el.opening.attributes@));
            }
            r
        },
        _ => {
            proof {
                reveal(child_is_caption_track);
            }
            false
        },
    }
}

/// Whether `name` occurs in the list.
pub fn list_contains(v: &Vec<String>, name: &str) -> (r: bool)
    ensures
        r == strings_model(v@).contains(name@),
{
    let n = v.len();
    let mut i: usize = 0;
    while i < n
        invariant
            n == v@.len(),
            i <= n,
            forall|j: int| 0 <= j < i ==> #[trigger] strings_model(v@)[j] != name@,
        decreases n - i,
    {
        if compare_str(v[i].as_str(), name) {
            proof {
                assert(strings_model(v@)[i as int] == name@);
            }
            return true;
        }
        i = i + 1;
    }
    proof {
        if strings_model(v@).contains(name@) {
            let j = choose|j: int| 0 <= j < strings_model(v@).len() && strings_model(v@)[j]
                == name@;
            assert(strings_model(v@)[j] != name@);
        }
    }
    false
}

/// Whether some child is a track-like element carrying captions.
fn any_caption_child(children: &Vec<JsxChild>, cfg: &MediaHasCaption, st: &JsxA11ySettings) -> (r:
    bool)
    ensures
        r == exists|i: int|
            0 <= i < children_model(children@).len() && child_is_caption_track(
                #[trigger] children_model(children@)[i],
                cfg.model(),
                st.model(),
            ),
{
    let n = children.len();
    let mut i: usize = 0;
    while i < n
        invariant
            n == children@.len(),
            i <= n,
            forall|j: int| 0 <= j < i ==> !child_is_caption_track(
                #[trigger] children_model(children@)[j],
                cfg.model(),
                st.model(),
            ),
        decreases n - i,
    {
        if child_caption_track(&children[i], cfg, st) {
            proof {
                assert(child_is_caption_track(
                    children_model(children@)[i as int],
                    cfg.model(),
                    st.model(),
                ));
            }
            return true;
        }
        i = i + 1;
    }
    false
}

impl MediaHasCaption {
    /// The rule's finding for one element (executable form): the span to
    /// diagnose, or none.
    #[verifier::rlimit(100)]
    #[verifier::spinoff_prover]
    pub fn check_element(&self, element: &JsxElement, st: &JsxA11ySettings) -> (r: Option<Span>)
        ensures
            r == media_finding(self.model(), element.model(), st.model()),
    {
        proof {
            assert(element.model() == (ElementM {
                opening: element.opening.model(),
                children: children_model(element.children@),
                span: element.span,
            }));
            assert(self.model().audio == strings_model(self.0.audio@));
            assert(self.model().video == strings_model(self.0.video@));
            assert(element.opening.model().attributes == attrs_model(
                element.opening.attributes@,
            ));
            assert(children_model(element.children@).len() == element.children@.len());
        }
        let name = mapped_element_name_of(&element.opening, st);
        let is_audio_or_video = list_contains(&self.0.audio, name.as_str()) || list_contains(
            &self.0.video,
            name.as_str(),
        );
        if !is_audio_or_video {
            proof {
                assert(None::<Span> == media_finding(self.model(), element.model(), st.model()))
                    by {
                    reveal(media_finding);
                };
            }
            return None;
        }
        if has_muted_attr(&element.opening.attributes) {
            proof {
                assert(None::<Span> == media_finding(self.model(), element.model(), st.model()))
                    by {
                    reveal(media_finding);
                };
            }
            return None;
        }
        if element.children.len() == 0 {
            proof {
                assert(Some(element.opening.span) == media_finding(
                    self.model(),
                    element.model(),
                    st.model(),
                )) by {
                    reveal(media_finding);
                };
            }
            return Some(element.opening.span);
        }
        let any = any_caption_child(&element.children, self, st);
        if any {
            proof {
                assert(None::<Span> == media_finding(self.model(), element.model(), st.model()))
                    by {
                    reveal(media_finding);
                };
            }
            None
        } else {
            proof {
                assert(Some(element.span) == media_finding(
                    self.model(),
                    element.model(),
                    st.model(),
                )) by {
                    reveal(media_finding);
                };
            }
            Some(element.span)
        }
    }

    /// Runs the rule on one element, appending its finding, if any, to the
    /// diagnostic sink. Never mutates the tree.
    #[verifier::rlimit(60)]
    pub fn run_on_element(
        &self,
        element: &JsxElement,
        st: &JsxA11ySettings,
        diagnostics: &mut Vec<Diagnostic>,
    )
        ensures
            final(diagnostics)@.len() >= old(diagnostics)@.len(),
            final(diagnostics)@.subrange(0, old(diagnostics)@.len() as int) == old(
                diagnostics,
            )@,
            diags_model(final(diagnostics)@) == diags_model(old(diagnostics)@) + media_diags(
                self.model(),
                element.model(),
                st.model(),
            ),
    {
        let finding = self.check_element(element, st);
        match finding {
            Some(span) => {
                let d = make_media_diag(span);
                diagnostics.push(d);
                proof {
                    assert(diagnostics@.subrange(0, old(diagnostics)@.len() as int) =~= old(
                        diagnostics,
                    )@);
                    assert(diags_model(diagnostics@) =~= diags_model(old(diagnostics)@)
                        + media_diags(self.model(), element.model(), st.model()));
                }
            },
            None => {
                proof {
                    assert(diagnostics@.subrange(0, old(diagnostics)@.len() as int) =~= old(
                        diagnostics,
                    )@);
                    assert(diags_model(diagnostics@) =~= diags_model(old(diagnostics)@)
                        + media_diags(self.model(), element.model(), st.model()));
                }
            },
        }
    }
}

} // verus!
