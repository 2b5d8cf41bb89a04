//! Per-run configuration: a loosely-typed key/value structure for rule
//! options, toolchain-wide settings, and the module record an import-aware
//! check consults. Reading collaborators hand these in as plain values.

use vstd::prelude::*;

verus! {

/// A loosely-typed configuration value.
pub enum Json {
    JsonNull,
    JsonBool { value: bool },
    JsonNumber,
    JsonString { value: String },
    JsonArray { items: Vec<Json> },
    JsonObject { entries: Vec<(String, Json)> },
}

/// The model of a [`Json`] value.
#[verifier::ext_equal]
pub ghost enum JsonM {
    JsonNull,
    JsonBool { value: bool },
    JsonNumber,
    JsonString { value: Seq<char> },
    JsonArray { items: Seq<JsonM> },
    JsonObject { entries: Seq<(Seq<char>, JsonM)> },
}

/// The models of a sequence of values, in order.
pub open spec fn jsons_model(v: Seq<Json>) -> Seq<JsonM>
    decreases v,
{
    Seq::new(v.len(), |i: int| if 0 <= i < v.len() { v[i].model() } else { arbitrary() })
}

/// The models of an entry list, in order.
pub open spec fn entries_model(v: Seq<(String, Json)>) -> Seq<(Seq<char>, JsonM)>
    decreases v,
{
    Seq::new(
        v.len(),
        |i: int| if 0 <= i < v.len() { (v[i].0@, v[i].1.model()) } else { arbitrary() },
    )
}

impl Json {
    pub open spec fn model(self) -> JsonM
        decreases self,
    {
        match self {
            Json::JsonNull => JsonM::JsonNull,
            Json::JsonBool { value } => JsonM::JsonBool { value },
            Json::JsonNumber => JsonM::JsonNumber,
            Json::JsonString { value } => JsonM::JsonString { value: value@ },
            Json::JsonArray { items } => JsonM::JsonArray { items: jsons_model(items@) },
            Json::JsonObject { entries } => JsonM::JsonObject {
                entries: entries_model(entries@),
            },
        }
    }
}

/// The value under `key` in an entry list: the first entry with that key,
/// or none.
pub open spec fn json_lookup(entries: Seq<(Seq<char>, JsonM)>, key: Seq<char>) -> Option<JsonM>
    decreases entries.len(),
{
    if entries.len() == 0 {
        None
    } else if entries[0].0 == key {
        Some(entries[0].1)
    } else {
        json_lookup(entries.drop_first(), key)
    }
}

/// The value under `key` when `v` is an object, or none.
pub open spec fn json_get(v: JsonM, key: Seq<char>) -> Option<JsonM> {
    match v {
        JsonM::JsonObject { entries } => json_lookup(entries, key),
        _ => None,
    }
}

impl Json {
    /// The value under `key` when this value is an object, or none.
    pub fn get<'a>(&'a self, key: &str) -> (r: Option<&'a Json>)
        ensures
            match r {
                Some(j) => json_get(self.model(), key@) == Some(j.model()),
                None => json_get(self.model(), key@) is None,
            },
    {
        match self {
            Json::JsonObject { entries } => {
                let n = entries.len();
                let mut i: usize = 0;
                proof {
                    assert(entries_model(entries@).skip(0) =~= entries_model(entries@));
                }
                while i < n
                    invariant
                        n == entries@.len(),
                        i <= n,
                        self matches Json::JsonObject { entries: es } && es == entries,
                        json_lookup(entries_model(entries@), key@) == json_lookup(
                            entries_model(entries@).skip(i as int),
                            key@,
                        ),
                    decreases n - i,
                {
                    let hit = crate::scope::compare_str(entries[i].0.as_str(), key);
                    proof {
                        let em = entries_model(entries@);
                        assert(em.skip(i as int)[0] == em[i as int]);
                        assert(em.skip(i as int).drop_first() =~= em.skip(i as int + 1));
                    }
                    if hit {
                        return Some(&entries[i].1);
                    }
                    i = i + 1;
                }
                proof {
                    assert(entries_model(entries@).skip(n as int).len() == 0);
                }
                None
            },
            _ => None,
        }
    }
}

/// The models of a string list, in order.
pub open spec fn strings_model(v: Seq<String>) -> Seq<Seq<char>> {
    Seq::new(v.len(), |i: int| v[i]@)
}

/// The models of a string-pair list, in order.
pub open spec fn pairs_model(v: Seq<(String, String)>) -> Seq<(Seq<char>, Seq<char>)> {
    Seq::new(v.len(), |i: int| (v[i].0@, v[i].1@))
}

/// Toolchain-wide settings: the optional polymorphic-prop name, and the
/// custom-component alias mapping (an association list keyed by component
/// name; the first entry for a name wins).
pub struct JsxA11ySettings {
    pub polymorphic_prop_name: Option<String>,
    pub components: Vec<(String, String)>,
}

/// The model of [`JsxA11ySettings`].
#[verifier::ext_equal]
pub ghost struct SettingsM {
    pub polymorphic_prop_name: Option<Seq<char>>,
    pub components: Seq<(Seq<char>, Seq<char>)>,
}

impl JsxA11ySettings {
    pub open spec fn model(self) -> SettingsM {
        SettingsM {
            polymorphic_prop_name: match self.polymorphic_prop_name {
                Some(p) => Some(p@),
                None => None,
            },
            components: pairs_model(self.components@),
        }
    }

    /// Settings with no polymorphic prop and no component aliases.
    pub fn empty() -> (r: JsxA11ySettings)
        ensures
            r.model() == (SettingsM {
                polymorphic_prop_name: None::<Seq<char>>,
                components: Seq::<(Seq<char>, Seq<char>)>::empty(),
            }),
    {
        let r = JsxA11ySettings { polymorphic_prop_name: None, components: Vec::new() };
        proof {
            assert(pairs_model(r.components@) =~= Seq::<(Seq<char>, Seq<char>)>::empty());
        }
        r
    }
}

/// The alias under `name` in a component mapping: the first entry with that
/// name, or none.
pub open spec fn alias_lookup(components: Seq<(Seq<char>, Seq<char>)>, name: Seq<char>) -> Option<
    Seq<char>,
>
    decreases components.len(),
{
    if components.len() == 0 {
        None
    } else if components[0].0 == name {
        Some(components[0].1)
    } else {
        alias_lookup(components.drop_first(), name)
    }
}

/// Looks `name` up in the component alias mapping.
pub fn lookup_alias<'a>(components: &'a Vec<(String, String)>, name: &str) -> (r: Option<
    &'a String,
>)
    ensures
        match r {
            Some(a) => alias_lookup(pairs_model(components@), name@) == Some(a@),
            None => alias_lookup(pairs_model(components@), name@) is None,
        },
{
    let n = components.len();
    let mut i: usize = 0;
    proof {
        assert(pairs_model(components@).skip(0) =~= pairs_model(components@));
    }
    while i < n
        invariant
            n == components@.len(),
            i <= n,
            alias_lookup(pairs_model(components@), name@) == alias_lookup(
                pairs_model(components@).skip(i as int),
                name@,
            ),
        decreases n - i,
    {
        let hit = crate::scope::compare_str(components[i].0.as_str(), name);
        proof {
            let pm = pairs_model(components@);
            assert(pm.skip(i as int)[0] == pm[i as int]);
            assert(pm.skip(i as int).drop_first() =~= pm.skip(i as int + 1));
        }
        if hit {
            return Some(&components[i].1);
        }
        i = i + 1;
    }
    proof {
        assert(pairs_model(components@).skip(n as int).len() == 0);
    }
    None
}

/// One import entry of the module record: `local_name` imported from the
/// module named `module_request`.
pub struct ImportEntry {
    pub module_request: String,
    pub local_name: String,
}

/// What the binder recorded about the unit's imports.
pub struct ModuleRecord {
    pub import_entries: Vec<ImportEntry>,
    pub requested_modules: Vec<String>,
}

/// The model of an [`ImportEntry`].
#[verifier::ext_equal]
pub ghost struct ImportEntryM {
    pub module_request: Seq<char>,
    pub local_name: Seq<char>,
}

/// The model of a [`ModuleRecord`].
#[verifier::ext_equal]
pub ghost struct ModuleRecordM {
    pub import_entries: Seq<ImportEntryM>,
    pub requested_modules: Seq<Seq<char>>,
}

impl ImportEntry {
    pub open spec fn model(self) -> ImportEntryM {
        ImportEntryM { module_request: self.module_request@, local_name: self.local_name@ }
    }
}

impl ModuleRecord {
    pub open spec fn model(self) -> ModuleRecordM {
        ModuleRecordM {
            import_entries: Seq::new(
                self.import_entries@.len(),
                |i: int| self.import_entries@[i].model(),
            ),
            requested_modules: strings_model(self.requested_modules@),
        }
    }

    /// A record with no imports and no requested modules.
    pub fn empty() -> (r: ModuleRecord)
        ensures
            r.model().import_entries.len() == 0,
            r.model().requested_modules.len() == 0,
    {
        ModuleRecord { import_entries: Vec::new(), requested_modules: Vec::new() }
    }
}

} // verus!
