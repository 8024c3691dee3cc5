use crate::json::{JsonModel, JsonValue, json_view};
use crate::ordered_map::OrderedMap;
use vstd::prelude::*;

verus! {

/// The version of the catalog format: files hold it as a string or as an integer.
#[derive(Debug, Clone)]
pub enum FormatVersion {
    String(String),
    Integer(i64),
}

/// The text of a translation and the state of its translation.
#[derive(Debug, Clone)]
pub struct XcStringUnit {
    pub state: Option<String>,
    pub value: Option<String>,
}

/// The cases of one variation selector, each a localization of its own.
pub type Cases = OrderedMap<XcLocalization>;

/// The variation selectors of a localization, each with its cases.
pub type Variations = OrderedMap<Cases>;

/// What one language holds for one key. A member that is absent holds nothing.
#[derive(Debug)]
pub struct XcLocalization {
    pub string_unit: Option<XcStringUnit>,
    pub substitutions: Option<OrderedMap<XcSubstitution>>,
    pub variations: Option<Variations>,
}

/// A named placeholder inside a translation, with phrasing variants of its own.
#[derive(Debug)]
pub struct XcSubstitution {
    pub arg_num: Option<i64>,
    pub format_specifier: Option<String>,
    pub string_unit: Option<XcStringUnit>,
    pub variations: Option<Variations>,
}

/// One source string: its notes and what each language holds for it.
#[derive(Debug)]
pub struct XcStringEntry {
    pub comment: Option<String>,
    pub extraction_state: Option<String>,
    pub localizations: OrderedMap<XcLocalization>,
    pub should_translate: Option<bool>,
}

/// A string catalog. `raw` keeps the top-level members as they were read, so
/// that members this library does not know, and the order of all of them, survive.
#[derive(Debug)]
pub struct XcStringsFile {
    pub(crate) raw: OrderedMap<JsonValue>,
    pub version: String,
    pub format_version: Option<FormatVersion>,
    pub source_language: String,
    pub strings: OrderedMap<XcStringEntry>,
}

/// The mathematical value of a [`FormatVersion`].
pub enum FormatVersionModel {
    String(Seq<char>),
    Integer(int),
}

/// The mathematical value of an [`XcStringUnit`].
pub struct UnitModel {
    pub state: Option<Seq<char>>,
    pub value: Option<Seq<char>>,
}

/// Cases in order: name and localization.
pub type CasesModel = Seq<(Seq<char>, LocModel)>;

/// Variation selectors in order: name and cases.
pub type VariationsModel = Seq<(Seq<char>, CasesModel)>;

/// The mathematical value of an [`XcLocalization`]: a tree of ordered mappings.
pub struct LocModel {
    pub unit: Option<UnitModel>,
    pub substitutions: Seq<(Seq<char>, SubModel)>,
    pub variations: VariationsModel,
}

/// The mathematical value of an [`XcSubstitution`].
pub struct SubModel {
    pub arg_num: Option<int>,
    pub format_specifier: Option<Seq<char>>,
    pub unit: Option<UnitModel>,
    pub variations: VariationsModel,
}

/// The mathematical value of an [`XcStringEntry`].
pub struct EntryModel {
    pub comment: Option<Seq<char>>,
    pub extraction_state: Option<Seq<char>>,
    pub localizations: CasesModel,
    pub should_translate: Option<bool>,
}

/// The mathematical value of an [`XcStringsFile`].
pub struct CatalogModel {
    pub raw: Seq<(Seq<char>, JsonModel)>,
    pub version: Seq<char>,
    pub format_version: Option<FormatVersionModel>,
    pub source_language: Seq<char>,
    pub strings: Seq<(Seq<char>, EntryModel)>,
}

/// The characters of an optional string.
pub open spec fn text_view(s: Option<String>) -> Option<Seq<char>> {
    match s {
        Some(t) => Some(t@),
        None => None,
    }
}

impl View for FormatVersion {
    type V = FormatVersionModel;

    open spec fn view(&self) -> FormatVersionModel {
        match *self {
            FormatVersion::String(s) => FormatVersionModel::String(s@),
            FormatVersion::Integer(n) => FormatVersionModel::Integer(n as int),
        }
    }
}

impl View for XcStringUnit {
    type V = UnitModel;

    open spec fn view(&self) -> UnitModel {
        UnitModel { state: text_view(self.state), value: text_view(self.value) }
    }
}

/// The model of an optional string unit.
pub open spec fn unit_view(u: Option<XcStringUnit>) -> Option<UnitModel> {
    match u {
        Some(x) => Some(x@),
        None => None,
    }
}

/// An empty localization: the value of the type's default.
pub open spec fn empty_loc() -> LocModel {
    LocModel { unit: None, substitutions: Seq::empty(), variations: Seq::empty() }
}

/// An empty substitution: the value of the type's default.
pub open spec fn empty_sub() -> SubModel {
    SubModel { arg_num: None, format_specifier: None, unit: None, variations: Seq::empty() }
}

/// The model of a localization.
pub open spec fn loc_view(l: XcLocalization) -> LocModel
    decreases l,
{
    LocModel {
        unit: unit_view(l.string_unit),
        substitutions: match l.substitutions {
            Some(m) => subs_view(m),
            None => Seq::empty(),
        },
        variations: match l.variations {
            Some(m) => variations_view(m),
            None => Seq::empty(),
        },
    }
}

/// The model of a substitution.
pub open spec fn sub_view(s: XcSubstitution) -> SubModel
    decreases s,
{
    SubModel {
        arg_num: match s.arg_num {
            Some(n) => Some(n as int),
            None => None,
        },
        format_specifier: text_view(s.format_specifier),
        unit: unit_view(s.string_unit),
        variations: match s.variations {
            Some(m) => variations_view(m),
            None => Seq::empty(),
        },
    }
}

/// The model of a map of localizations: its entries in order.
pub open spec fn cases_view(m: Cases) -> CasesModel
    decreases m,
{
    Seq::new(
        m.values().len(),
        |i: int|
            if 0 <= i < m.values().len() {
                proof {
                    m.lemma_decreases();
                }
                (m.keys()[i], loc_view(m.values()[i]))
            } else {
                (Seq::empty(), empty_loc())
            },
    )
}

/// The model of a map of variation selectors: its entries in order.
pub open spec fn variations_view(m: Variations) -> VariationsModel
    decreases m,
{
    Seq::new(
        m.values().len(),
        |i: int|
            if 0 <= i < m.values().len() {
                proof {
                    m.lemma_decreases();
                }
                (m.keys()[i], cases_view(m.values()[i]))
            } else {
                (Seq::empty(), Seq::empty())
            },
    )
}

/// The model of a map of substitutions: its entries in order.
pub open spec fn subs_view(m: OrderedMap<XcSubstitution>) -> Seq<(Seq<char>, SubModel)>
    decreases m,
{
    Seq::new(
        m.values().len(),
        |i: int|
            if 0 <= i < m.values().len() {
                proof {
                    m.lemma_decreases();
                }
                (m.keys()[i], sub_view(m.values()[i]))
            } else {
                (Seq::empty(), empty_sub())
            },
    )
}

impl Default for XcLocalization {
    /// A localization that holds nothing.
    fn default() -> (r: Self)
        ensures
            r@ == empty_loc(),
    {
        XcLocalization { string_unit: None, substitutions: None, variations: None }
    }
}

impl Default for XcSubstitution {
    /// A substitution that holds nothing.
    fn default() -> (r: Self)
        ensures
            r@ == empty_sub(),
    {
        XcSubstitution { arg_num: None, format_specifier: None, string_unit: None, variations: None }
    }
}

impl Default for XcStringUnit {
    /// A string unit with neither state nor value.
    fn default() -> (r: Self)
        ensures
            r@ == (UnitModel { state: None, value: None }),
    {
        XcStringUnit { state: None, value: None }
    }
}

impl View for XcLocalization {
    type V = LocModel;

    open spec fn view(&self) -> LocModel {
        loc_view(*self)
    }
}

impl View for XcSubstitution {
    type V = SubModel;

    open spec fn view(&self) -> SubModel {
        sub_view(*self)
    }
}

impl View for XcStringEntry {
    type V = EntryModel;

    open spec fn view(&self) -> EntryModel {
        EntryModel {
            comment: text_view(self.comment),
            extraction_state: text_view(self.extraction_state),
            localizations: cases_view(self.localizations),
            should_translate: self.should_translate,
        }
    }
}

/// The model of the map of entries: its entries in order.
pub open spec fn strings_view(m: OrderedMap<XcStringEntry>) -> Seq<(Seq<char>, EntryModel)> {
    Seq::new(m.values().len(), |i: int| (m.keys()[i], m.values()[i]@))
}

/// The model of the top-level members as they were read.
pub open spec fn raw_view(m: OrderedMap<JsonValue>) -> Seq<(Seq<char>, JsonModel)> {
    Seq::new(m.values().len(), |i: int| (m.keys()[i], json_view(m.values()[i])))
}

impl View for XcStringsFile {
    type V = CatalogModel;

    open(crate) spec fn view(&self) -> CatalogModel {
        CatalogModel {
            raw: raw_view(self.raw),
            version: self.version@,
            format_version: match self.format_version {
                Some(v) => Some(v@),
                None => None,
            },
            source_language: self.source_language@,
            strings: strings_view(self.strings),
        }
    }
}

} // verus!
