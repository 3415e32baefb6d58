//! Style values, style targets, and the style-resolution engine.
//!
//! A slide's styles form a two-level mapping: a target (a named element, the
//! default for one element type, or the slide itself) maps to a set of named
//! property values. After parsing, a slide's partial style map is filled in
//! against the global defaults: defaults never overwrite explicit values.

use vstd::prelude::*;

use crate::assoc::{
    assoc_map, assoc_wf, lemma_assoc_map_contains, lemma_assoc_map_index, lemma_assoc_map_push,
    lemma_assoc_map_remove, lemma_assoc_map_update,
};
use crate::ast::{AbstractElement, ElementType, ElementView};
use crate::layout::SizeSpec;
use crate::text::str_eq;
use crate::{SLIDE_HEIGHT, SLIDE_WIDTH};
use vstd::pervasive::unreached;
use vstd::pervasive::VecAdditionalExecFns;
use vstd::string::StringExecFns;

verus! {

/// One typed style property value.
#[derive(Debug, PartialEq, Eq)]
pub enum PropertyValue {
    Number(u32),
    String(String),
    Boolean(bool),
    Colour(u8, u8, u8),
    SizeSpec(SizeSpec),
}

/// The mathematical shape of a property value.
pub enum PropertyValueView {
    Number(u32),
    String(Seq<char>),
    Boolean(bool),
    Colour(u8, u8, u8),
    SizeSpec(SizeSpec),
}

impl View for PropertyValue {
    type V = PropertyValueView;

    open spec fn view(&self) -> PropertyValueView {
        match self {
            PropertyValue::Number(n) => PropertyValueView::Number(*n),
            PropertyValue::String(s) => PropertyValueView::String(s@),
            PropertyValue::Boolean(b) => PropertyValueView::Boolean(*b),
            PropertyValue::Colour(r, g, b) => PropertyValueView::Colour(*r, *g, *b),
            PropertyValue::SizeSpec(s) => PropertyValueView::SizeSpec(*s),
        }
    }
}

impl Clone for PropertyValue {
    fn clone(&self) -> (r: Self)
        ensures
            r@ == self@,
    {
        match self {
            PropertyValue::Number(n) => PropertyValue::Number(*n),
            PropertyValue::String(s) => PropertyValue::String(s.clone()),
            PropertyValue::Boolean(b) => PropertyValue::Boolean(*b),
            PropertyValue::Colour(r, g, b) => PropertyValue::Colour(*r, *g, *b),
            PropertyValue::SizeSpec(s) => PropertyValue::SizeSpec(*s),
        }
    }
}

/// What a set of style properties applies to.
#[derive(Debug, PartialEq, Eq, Hash)]
pub enum StyleTarget {
    Named(String),
    Anonymous(ElementType),
    Slide,
}

/// The mathematical shape of a style target.
pub enum StyleTargetView {
    Named(Seq<char>),
    Anonymous(ElementType),
    Slide,
}

impl View for StyleTarget {
    type V = StyleTargetView;

    open spec fn view(&self) -> StyleTargetView {
        match self {
            StyleTarget::Named(s) => StyleTargetView::Named(s@),
            StyleTarget::Anonymous(t) => StyleTargetView::Anonymous(*t),
            StyleTarget::Slide => StyleTargetView::Slide,
        }
    }
}

impl Clone for StyleTarget {
    fn clone(&self) -> (r: Self)
        ensures
            r@ == self@,
    {
        match self {
            StyleTarget::Named(s) => StyleTarget::Named(s.clone()),
            StyleTarget::Anonymous(t) => StyleTarget::Anonymous(*t),
            StyleTarget::Slide => StyleTarget::Slide,
        }
    }
}

/// Equality of two style targets, by their mathematical shape.
pub fn target_eq(a: &StyleTarget, b: &StyleTarget) -> (r: bool)
    ensures
        r == (a@ == b@),
{
    match (a, b) {
        (StyleTarget::Named(x), StyleTarget::Named(y)) => str_eq(x.as_str(), y.as_str()),
        (StyleTarget::Anonymous(x), StyleTarget::Anonymous(y)) => *x == *y,
        (StyleTarget::Slide, StyleTarget::Slide) => true,
        _ => false,
    }
}

/// The built-in default property set for one style target.
pub open spec fn spec_default_style(t: StyleTargetView) -> Map<Seq<char>, PropertyValueView> {
    match t {
        StyleTargetView::Named(_) => Map::empty(),
        StyleTargetView::Slide => Map::empty()
            .insert("width"@, PropertyValueView::Number(SLIDE_WIDTH))
            .insert("height"@, PropertyValueView::Number(SLIDE_HEIGHT))
            .insert("margin"@, PropertyValueView::Number(64))
            .insert("bg"@, PropertyValueView::Colour(235, 218, 199)),
        StyleTargetView::Anonymous(et) => match et {
            ElementType::Padding => Map::empty().insert("amount"@, PropertyValueView::Number(12)),
            ElementType::Row => Map::empty().insert("gap"@, PropertyValueView::Number(32)),
            ElementType::Col => Map::empty().insert("gap"@, PropertyValueView::Number(32)),
            ElementType::Centre => Map::empty(),
            ElementType::Text => Map::empty()
                .insert("size"@, PropertyValueView::Number(32))
                .insert("font"@, PropertyValueView::String("Liberation Serif"@))
                .insert("fill"@, PropertyValueView::Colour(0, 0, 0)),
            ElementType::Code => Map::empty()
                .insert("bg"@, PropertyValueView::Colour(30, 30, 30))
                .insert("fill"@, PropertyValueView::Colour(255, 255, 255))
                .insert("margin"@, PropertyValueView::Number(20))
                .insert("size"@, PropertyValueView::Number(32))
                .insert("font"@, PropertyValueView::String("Liberation Mono"@))
                .insert("language"@, PropertyValueView::String("rs"@)),
            ElementType::Image => Map::empty(),
            ElementType::ElNone => Map::empty(),
        },
    }
}

/// The style target that styles one element: its name where it has one, the
/// default for its element type otherwise.
pub open spec fn spec_reify(e: ElementView) -> StyleTargetView {
    match e.name {
        Some(n) => StyleTargetView::Named(n),
        None => StyleTargetView::Anonymous(e.el_type),
    }
}

impl StyleTarget {
    /// Builds the built-in default property set for this target.
    pub fn default_style(&self) -> (r: PropertySet)
        ensures
            r@ == spec_default_style(self@),
            r.wf(),
    {
        let mut r = PropertySet::new();
        match self {
            StyleTarget::Named(_) => {},
            StyleTarget::Slide => {
                r.insert(String::from_str("width"), PropertyValue::Number(SLIDE_WIDTH));
                r.insert(String::from_str("height"), PropertyValue::Number(SLIDE_HEIGHT));
                r.insert(String::from_str("margin"), PropertyValue::Number(64));
                r.insert(String::from_str("bg"), PropertyValue::Colour(235, 218, 199));
            },
            StyleTarget::Anonymous(et) => match et {
                ElementType::Padding => {
                    r.insert(String::from_str("amount"), PropertyValue::Number(12));
                },
                ElementType::Row => {
                    r.insert(String::from_str("gap"), PropertyValue::Number(32));
                },
                ElementType::Col => {
                    r.insert(String::from_str("gap"), PropertyValue::Number(32));
                },
                ElementType::Centre => {},
                ElementType::Text => {
                    r.insert(String::from_str("size"), PropertyValue::Number(32));
                    r.insert(
                        String::from_str("font"),
                        PropertyValue::String(String::from_str("Liberation Serif")),
                    );
                    r.insert(String::from_str("fill"), PropertyValue::Colour(0, 0, 0));
                },
                ElementType::Code => {
                    r.insert(String::from_str("bg"), PropertyValue::Colour(30, 30, 30));
                    r.insert(String::from_str("fill"), PropertyValue::Colour(255, 255, 255));
                    r.insert(String::from_str("margin"), PropertyValue::Number(20));
                    r.insert(String::from_str("size"), PropertyValue::Number(32));
                    r.insert(
                        String::from_str("font"),
                        PropertyValue::String(String::from_str("Liberation Mono")),
                    );
                    r.insert(
                        String::from_str("language"),
                        PropertyValue::String(String::from_str("rs")),
                    );
                },
                ElementType::Image => {},
                ElementType::ElNone => {},
            },
        }
        r
    }

    /// The style target that styles `elem`.
    pub fn reify(elem: &AbstractElement) -> (r: StyleTarget)
        ensures
            r@ == spec_reify(elem@),
    {
        match elem.name() {
            Some(name) => StyleTarget::Named(name.clone()),
            None => StyleTarget::Anonymous(elem.el_type()),
        }
    }
}

/// A set of style properties: names mapped to typed values.
#[derive(Debug, Clone, PartialEq, Eq)]
pub struct PropertySet {
    pub entries: Vec<(String, PropertyValue)>,
}

impl View for PropertySet {
    type V = Map<Seq<char>, PropertyValueView>;

    open spec fn view(&self) -> Map<Seq<char>, PropertyValueView> {
        assoc_map(self.entries@)
    }
}

impl PropertySet {
    /// Property names are pairwise distinct.
    pub open spec fn wf(&self) -> bool {
        assoc_wf(self.entries@)
    }

    /// An empty property set.
    pub fn new() -> (r: PropertySet)
        ensures
            r@ == Map::<Seq<char>, PropertyValueView>::empty(),
            r.wf(),
            r.entries@.len() == 0,
    {
        PropertySet { entries: Vec::new() }
    }

    /// Looks a property up by name.
    pub fn get(&self, name: &str) -> (r: Option<&PropertyValue>)
        requires
            self.wf(),
        ensures
            match r {
                Some(v) => self@.contains_key(name@) && v@ == self@[name@],
                None => !self@.contains_key(name@),
            },
    {
        let mut i: usize = 0;
        while i < self.entries.len()
            invariant
                self.wf(),
                0 <= i <= self.entries@.len(),
                forall|j: int| 0 <= j < i ==> self.entries@[j].0@ != name@,
            decreases self.entries@.len() - i,
        {
            if str_eq(self.entries[i].0.as_str(), name) {
                proof {
                    lemma_assoc_map_index(self.entries@, i as int);
                }
                return Some(&self.entries[i].1);
            }
            i = i + 1;
        }
        proof {
            lemma_assoc_map_contains(self.entries@, name@);
        }
        None
    }

    /// Adds a property, replacing any previous value under the same name.
    pub fn insert(&mut self, name: String, value: PropertyValue)
        requires
            old(self).wf(),
        ensures
            final(self)@ == old(self)@.insert(name@, value@),
            final(self).wf(),
    {
        let mut i: usize = 0;
        while i < self.entries.len()
            invariant
                self == old(self),
                self.wf(),
                0 <= i <= self.entries@.len(),
                forall|j: int| 0 <= j < i ==> self.entries@[j].0@ != name@,
            decreases self.entries@.len() - i,
        {
            if str_eq(self.entries[i].0.as_str(), name.as_str()) {
                proof {
                    lemma_assoc_map_update(self.entries@, i as int, (name, value));
                }
                self.entries.set(i, (name, value));
                return ;
            }
            i = i + 1;
        }
        proof {
            lemma_assoc_map_push(self.entries@, (name, value));
        }
        self.entries.push((name, value));
    }
}

/// The global default style map: the slide target and every anonymous element
/// type, each with its built-in defaults.
pub open spec fn spec_default_map() -> Map<StyleTargetView, Map<Seq<char>, PropertyValueView>> {
    Map::empty()
        .insert(StyleTargetView::Slide, spec_default_style(StyleTargetView::Slide))
        .insert(
            StyleTargetView::Anonymous(ElementType::Row),
            spec_default_style(StyleTargetView::Anonymous(ElementType::Row)),
        )
        .insert(
            StyleTargetView::Anonymous(ElementType::Col),
            spec_default_style(StyleTargetView::Anonymous(ElementType::Col)),
        )
        .insert(
            StyleTargetView::Anonymous(ElementType::Centre),
            spec_default_style(StyleTargetView::Anonymous(ElementType::Centre)),
        )
        .insert(
            StyleTargetView::Anonymous(ElementType::Padding),
            spec_default_style(StyleTargetView::Anonymous(ElementType::Padding)),
        )
        .insert(
            StyleTargetView::Anonymous(ElementType::Text),
            spec_default_style(StyleTargetView::Anonymous(ElementType::Text)),
        )
        .insert(
            StyleTargetView::Anonymous(ElementType::Code),
            spec_default_style(StyleTargetView::Anonymous(ElementType::Code)),
        )
        .insert(
            StyleTargetView::Anonymous(ElementType::Image),
            spec_default_style(StyleTargetView::Anonymous(ElementType::Image)),
        )
        .insert(
            StyleTargetView::Anonymous(ElementType::ElNone),
            spec_default_style(StyleTargetView::Anonymous(ElementType::ElNone)),
        )
}

/// Merges two property maps: `base` wins, `extra` supplies what is missing.
pub open spec fn spec_merge_props(
    base: Map<Seq<char>, PropertyValueView>,
    extra: Map<Seq<char>, PropertyValueView>,
) -> Map<Seq<char>, PropertyValueView> {
    Map::new(
        |k: Seq<char>| base.contains_key(k) || extra.contains_key(k),
        |k: Seq<char>|
            if base.contains_key(k) {
                base[k]
            } else {
                extra[k]
            },
    )
}

/// The fill-in merge: for every target of `other`, the result holds the
/// already-present properties (or, for a target not yet present, that target's
/// built-in defaults), widened by `other`'s properties where missing; targets
/// `other` does not mention are untouched.
pub open spec fn spec_fill_in(
    m: Map<StyleTargetView, Map<Seq<char>, PropertyValueView>>,
    other: Map<StyleTargetView, Map<Seq<char>, PropertyValueView>>,
) -> Map<StyleTargetView, Map<Seq<char>, PropertyValueView>> {
    Map::new(
        |t: StyleTargetView| m.contains_key(t) || other.contains_key(t),
        |t: StyleTargetView|
            if other.contains_key(t) {
                spec_merge_props(
                    if m.contains_key(t) {
                        m[t]
                    } else {
                        spec_default_style(t)
                    },
                    other[t],
                )
            } else {
                m[t]
            },
    )
}

/// Law: the fill-in merge is idempotent. Filling a style map in against the
/// same widening map a second time changes nothing: every target the widening
/// map mentions is already present after the first fill-in, and a present
/// property is never overwritten.
pub proof fn lemma_fill_in_idempotent(
    m: Map<StyleTargetView, Map<Seq<char>, PropertyValueView>>,
    other: Map<StyleTargetView, Map<Seq<char>, PropertyValueView>>,
)
    ensures
        spec_fill_in(spec_fill_in(m, other), other) == spec_fill_in(m, other),
{
    let f1 = spec_fill_in(m, other);
    let f2 = spec_fill_in(f1, other);
    assert forall|t: StyleTargetView| f1.contains_key(t) implies f2[t] == f1[t] by {
        if other.contains_key(t) {
            assert(spec_merge_props(f1[t], other[t]) =~= f1[t]);
        }
    }
    assert(f2 =~= f1);
}

/// Law: the fill-in merge never clobbers and always supplies. A property
/// already present under a target keeps its value through fill-in, and every
/// property of the widening map is present under its target afterwards.
pub proof fn lemma_fill_in_keeps_and_supplies(
    m: Map<StyleTargetView, Map<Seq<char>, PropertyValueView>>,
    other: Map<StyleTargetView, Map<Seq<char>, PropertyValueView>>,
    t: StyleTargetView,
    k: Seq<char>,
)
    ensures
        m.contains_key(t) && m[t].contains_key(k) ==> spec_fill_in(m, other).contains_key(t)
            && spec_fill_in(m, other)[t].contains_key(k) && spec_fill_in(m, other)[t][k]
            == m[t][k],
        other.contains_key(t) && other[t].contains_key(k) ==> spec_fill_in(
            m,
            other,
        ).contains_key(t) && spec_fill_in(m, other)[t].contains_key(k),
{
}

/// Law: a style map filled in against the global defaults covers the slide
/// target and every anonymous element type, since the defaults name them all.
pub proof fn lemma_fill_in_covers_defaults(
    m: Map<StyleTargetView, Map<Seq<char>, PropertyValueView>>,
    t: StyleTargetView,
)
    ensures
        spec_default_map().contains_key(t) ==> spec_fill_in(m, spec_default_map()).contains_key(t),
        spec_default_map().contains_key(StyleTargetView::Slide),
        forall|et: ElementType|
            #[trigger] spec_default_map().contains_key(StyleTargetView::Anonymous(et)),
{
    assert forall|et: ElementType|
        #[trigger] spec_default_map().contains_key(StyleTargetView::Anonymous(et)) by {
        match et {
            ElementType::Row => {},
            ElementType::Col => {},
            ElementType::Centre => {},
            ElementType::Padding => {},
            ElementType::Text => {},
            ElementType::Code => {},
            ElementType::Image => {},
            ElementType::ElNone => {},
        }
    }
}

/// The styles of one slide: a mapping from style target to property set.
#[derive(Debug, Clone, PartialEq, Eq)]
pub struct StyleMap {
    pub styles: Vec<(StyleTarget, PropertySet)>,
}

impl View for StyleMap {
    type V = Map<StyleTargetView, Map<Seq<char>, PropertyValueView>>;

    open spec fn view(&self) -> Map<StyleTargetView, Map<Seq<char>, PropertyValueView>> {
        assoc_map(self.styles@)
    }
}

impl StyleMap {
    /// Targets are pairwise distinct and every property set is well formed.
    pub open spec fn wf(&self) -> bool {
        &&& assoc_wf(self.styles@)
        &&& forall|i: int| 0 <= i < self.styles@.len() ==> (#[trigger] self.styles@[i]).1.wf()
    }

    /// An empty style map.
    pub fn new() -> (r: StyleMap)
        ensures
            r@ == Map::<StyleTargetView, Map<Seq<char>, PropertyValueView>>::empty(),
            r.wf(),
    {
        StyleMap { styles: Vec::new() }
    }

    /// Adds a property set for a target, replacing any previous set.
    pub fn add_style(&mut self, target: StyleTarget, properties: PropertySet)
        requires
            old(self).wf(),
            properties.wf(),
        ensures
            final(self)@ == old(self)@.insert(target@, properties@),
            final(self).wf(),
    {
        let mut i: usize = 0;
        while i < self.styles.len()
            invariant
                self == old(self),
                self.wf(),
                properties.wf(),
                0 <= i <= self.styles@.len(),
                forall|j: int| 0 <= j < i ==> self.styles@[j].0@ != target@,
            decreases self.styles@.len() - i,
        {
            if target_eq(&self.styles[i].0, &target) {
                proof {
                    lemma_assoc_map_update(self.styles@, i as int, (target, properties));
                }
                let ghost entries_pre = self.styles@;
                self.styles.set(i, (target, properties));
                proof {
                    assert forall|j: int|
                        0 <= j < self.styles@.len() implies (#[trigger] self.styles@[j]).1.wf() by {
                        if j != i as int {
                            assert(self.styles@[j] == entries_pre[j]);
                            assert(entries_pre[j].1.wf());
                        }
                    }
                }
                return ;
            }
            i = i + 1;
        }
        proof {
            lemma_assoc_map_contains(self.styles@, target@);
            lemma_assoc_map_push(self.styles@, (target, properties));
        }
        let ghost entries_pre = self.styles@;
        self.styles.push((target, properties));
        proof {
            assert forall|j: int|
                0 <= j < self.styles@.len() implies (#[trigger] self.styles@[j]).1.wf() by {
                if j < entries_pre.len() {
                    assert(self.styles@[j] == entries_pre[j]);
                    assert(entries_pre[j].1.wf());
                }
            }
        }
    }

    /// Whether a target already has a property set.
    pub fn contains_target(&self, target: &StyleTarget) -> (r: bool)
        ensures
            r == self@.contains_key(target@),
    {
        let mut i: usize = 0;
        while i < self.styles.len()
            invariant
                0 <= i <= self.styles@.len(),
                forall|j: int| 0 <= j < i ==> self.styles@[j].0@ != target@,
            decreases self.styles@.len() - i,
        {
            if target_eq(&self.styles[i].0, target) {
                proof {
                    lemma_assoc_map_contains(self.styles@, target@);
                }
                return true;
            }
            i = i + 1;
        }
        proof {
            lemma_assoc_map_contains(self.styles@, target@);
        }
        false
    }

    /// The property set for a target, if one is present.
    pub fn styles_for_target(&self, target: &StyleTarget) -> (r: Option<&PropertySet>)
        requires
            self.wf(),
        ensures
            match r {
                Some(p) => self@.contains_key(target@) && p@ == self@[target@] && p.wf(),
                None => !self@.contains_key(target@),
            },
    {
        let mut i: usize = 0;
        while i < self.styles.len()
            invariant
                self.wf(),
                0 <= i <= self.styles@.len(),
                forall|j: int| 0 <= j < i ==> self.styles@[j].0@ != target@,
            decreases self.styles@.len() - i,
        {
            if target_eq(&self.styles[i].0, target) {
                proof {
                    lemma_assoc_map_index(self.styles@, i as int);
                }
                return Some(&self.styles[i].1);
            }
            i = i + 1;
        }
        proof {
            lemma_assoc_map_contains(self.styles@, target@);
        }
        None
    }

    /// Widens this map by `other` without overwriting: a target missing here
    /// first receives its built-in defaults, and then each property missing
    /// under a target of `other` is supplied from `other`.
    pub fn fill_in(&mut self, other: StyleMap)
        requires
            old(self).wf(),
            other.wf(),
        ensures
            final(self)@ == spec_fill_in(old(self)@, other@),
            final(self).wf(),
    {
        let ghost m0 = old(self)@;
        let ghost o_all = other.styles@;
        let mut rest = other.styles;
        proof {
            assert(rest@ =~= o_all.subrange(0, rest@.len() as int));
        }
        while rest.len() > 0
            invariant
                self.wf(),
                assoc_wf(o_all),
                forall|j: int| 0 <= j < o_all.len() ==> (#[trigger] o_all[j]).1.wf(),
                rest@.len() <= o_all.len(),
                rest@ == o_all.subrange(0, rest@.len() as int),
                forall|t: StyleTargetView|
                    self@.contains_key(t) <==> (m0.contains_key(t) || exists|j: int|
                        rest@.len() <= j < o_all.len() && (#[trigger] o_all[j]).0@ == t),
                forall|j: int|
                    rest@.len() <= j < o_all.len() ==> self@[(#[trigger] o_all[j]).0@]
                        == spec_merge_props(
                        if m0.contains_key(o_all[j].0@) {
                            m0[o_all[j].0@]
                        } else {
                            spec_default_style(o_all[j].0@)
                        },
                        o_all[j].1@,
                    ),
                forall|t: StyleTargetView|
                    #![trigger m0.contains_key(t)]
                    #![trigger m0[t]]
                    m0.contains_key(t) && !(exists|j: int|
                        rest@.len() <= j < o_all.len() && (#[trigger] o_all[j]).0@ == t)
                        ==> self@.contains_key(t) && self@[t] == m0[t],
            decreases rest@.len(),
        {
            let next = rest.pop();
            match next {
                None => {
                    proof {
                        assert(false);
                    }
                },
                Some((target, props)) => {
                    let ghost k = rest@.len() as int;
                    proof {
                        assert(o_all[k] == (target, props));
                        assert(rest@ =~= o_all.subrange(0, rest@.len() as int));
                        assert forall|j: int|
                            k < j < o_all.len() implies (#[trigger] o_all[j]).0@ != target@ by {
                            assert(o_all[k].0@ == target@);
                        }
                    }
                    let ghost s_pre = self@;
                    let base = self.take_or_default(&target);
                    let ghost base0 = base@;
                    let filled = fill_props(base, props);
                    proof {
                        lemma_assoc_map_contains(self.styles@, target@);
                        lemma_assoc_map_push(self.styles@, (target, filled));
                    }
                    let ghost entries_pre = self.styles@;
                    self.styles.push((target, filled));
                    proof {
                        assert forall|j: int|
                            0 <= j < self.styles@.len() implies (#[trigger] self.styles@[j]).1.wf() by {
                            if j < entries_pre.len() {
                                assert(self.styles@[j] == entries_pre[j]);
                                assert(entries_pre[j].1.wf());
                            }
                        }
                        assert(self@ =~= s_pre.insert(target@, filled@));
                        assert(base0 == if m0.contains_key(target@) {
                            m0[target@]
                        } else {
                            spec_default_style(target@)
                        });
                        assert forall|t: StyleTargetView| self@.contains_key(t) implies (
                        m0.contains_key(t) || exists|j: int|
                            k <= j < o_all.len() && (#[trigger] o_all[j]).0@ == t) by {
                            if t == target@ {
                                assert((#[trigger] o_all[k]).0@ == t);
                            } else {
                                assert(s_pre.contains_key(t));
                                if !m0.contains_key(t) {
                                    let j = choose|j: int|
                                        k + 1 <= j < o_all.len() && (#[trigger] o_all[j]).0@ == t;
                                    assert(k <= j < o_all.len() && o_all[j].0@ == t);
                                }
                            }
                        }
                        assert forall|t: StyleTargetView|
                            m0.contains_key(t) || (exists|j: int|
                                k <= j < o_all.len() && (#[trigger] o_all[j]).0@
                                    == t) implies self@.contains_key(t) by {
                            if t != target@ {
                                if m0.contains_key(t) {
                                    assert(s_pre.contains_key(t));
                                } else {
                                    let j = choose|j: int|
                                        k <= j < o_all.len() && (#[trigger] o_all[j]).0@ == t;
                                    assert(j != k);
                                    assert(k + 1 <= j < o_all.len() && o_all[j].0@ == t);
                                    assert(s_pre.contains_key(t));
                                }
                            }
                        }
                        assert forall|j: int|
                            k <= j < o_all.len() implies self@[(#[trigger] o_all[j]).0@]
                            == spec_merge_props(
                            if m0.contains_key(o_all[j].0@) {
                                m0[o_all[j].0@]
                            } else {
                                spec_default_style(o_all[j].0@)
                            },
                            o_all[j].1@,
                        ) by {
                            if j > k {
                                assert(o_all[j].0@ != o_all[k].0@);
                                assert(self@[o_all[j].0@] == s_pre[o_all[j].0@]);
                            } else {
                                assert(self@[target@] == filled@);
                            }
                        }
                    }
                },
            }
        }
        proof {
            assert forall|t: StyleTargetView| #[trigger]
                spec_fill_in(m0, assoc_map(o_all)).contains_key(t) implies self@.contains_key(t)
                && self@[t] == spec_fill_in(m0, assoc_map(o_all))[t] by {
                lemma_assoc_map_contains(o_all, t);
                if assoc_map(o_all).contains_key(t) {
                    let j = choose|j: int| 0 <= j < o_all.len() && o_all[j].0@ == t;
                    lemma_assoc_map_index(o_all, j);
                    assert((#[trigger] o_all[j]).0@ == t);
                }
            }
            assert forall|t: StyleTargetView| self@.contains_key(t) implies spec_fill_in(
                m0,
                assoc_map(o_all),
            ).contains_key(t) by {
                lemma_assoc_map_contains(o_all, t);
            }
            assert(self@ =~= spec_fill_in(m0, assoc_map(o_all)));
        }
    }

    /// Removes and returns the property set held for `target`, or builds that
    /// target's defaults when none is held.
    fn take_or_default(&mut self, target: &StyleTarget) -> (r: PropertySet)
        requires
            old(self).wf(),
        ensures
            final(self).wf(),
            final(self)@ == old(self)@.remove(target@),
            r.wf(),
            r@ == if old(self)@.contains_key(target@) {
                old(self)@[target@]
            } else {
                spec_default_style(target@)
            },
    {
        let mut i: usize = 0;
        while i < self.styles.len()
            invariant
                self == old(self),
                self.wf(),
                0 <= i <= self.styles@.len(),
                forall|j: int| 0 <= j < i ==> self.styles@[j].0@ != target@,
            decreases self.styles@.len() - i,
        {
            if target_eq(&self.styles[i].0, target) {
                proof {
                    lemma_assoc_map_index(self.styles@, i as int);
                    lemma_assoc_map_remove(self.styles@, i as int);
                }
                let entry = self.styles.remove(i);
                return entry.1;
            }
            i = i + 1;
        }
        proof {
            lemma_assoc_map_contains(self.styles@, target@);
            assert(self@ =~= self@.remove(target@));
        }
        target.default_style()
    }
}

/// Fills `base` in from `props`: every property `base` lacks is supplied from
/// `props`; properties already present keep their value.
fn fill_props(base: PropertySet, props: PropertySet) -> (r: PropertySet)
    requires
        base.wf(),
        props.wf(),
    ensures
        r.wf(),
        r@ == spec_merge_props(base@, props@),
{
    let ghost base0 = base@;
    let ghost p_all = props.entries@;
    let mut r = base;
    let mut rest = props.entries;
    proof {
        assert(rest@ =~= p_all.subrange(0, rest@.len() as int));
    }
    while rest.len() > 0
        invariant
            r.wf(),
            assoc_wf(p_all),
            rest@.len() <= p_all.len(),
            rest@ == p_all.subrange(0, rest@.len() as int),
            forall|k: Seq<char>|
                r@.contains_key(k) <==> (base0.contains_key(k) || exists|j: int|
                    rest@.len() <= j < p_all.len() && (#[trigger] p_all[j]).0@ == k),
            forall|k: Seq<char>|
                #![trigger base0.contains_key(k)]
                #![trigger base0[k]]
                base0.contains_key(k) ==> r@.contains_key(k) && r@[k] == base0[k],
            forall|j: int|
                rest@.len() <= j < p_all.len() && !base0.contains_key((#[trigger] p_all[j]).0@)
                    ==> r@[p_all[j].0@] == p_all[j].1@,
        decreases rest@.len(),
    {
        let next = rest.pop();
        match next {
            None => {
                proof {
                    assert(false);
                }
            },
            Some((name, value)) => {
                let ghost k = rest@.len() as int;
                let ghost namev = name@;
                proof {
                    assert(p_all[k] == (name, value));
                    assert(rest@ =~= p_all.subrange(0, rest@.len() as int));
                    assert forall|j: int|
                        k < j < p_all.len() implies (#[trigger] p_all[j]).0@ != namev by {
                        assert(p_all[k].0@ == namev);
                    }
                }
                let ghost r_pre = r@;
                let present = match r.get(name.as_str()) {
                    Some(_) => true,
                    None => false,
                };
                proof {
                    assert(present == base0.contains_key(namev));
                }
                if !present {
                    r.insert(name, value);
                }
                proof {
                    assert(r@.contains_key(p_all[k].0@));
                    assert forall|k2: Seq<char>| r@.contains_key(k2) implies (base0.contains_key(
                        k2,
                    ) || exists|j: int|
                        k <= j < p_all.len() && (#[trigger] p_all[j]).0@ == k2) by {
                        if k2 == namev {
                            assert((#[trigger] p_all[k]).0@ == k2);
                        } else {
                            assert(r_pre.contains_key(k2));
                            if !base0.contains_key(k2) {
                                let j = choose|j: int|
                                    k + 1 <= j < p_all.len() && (#[trigger] p_all[j]).0@ == k2;
                                assert(k <= j < p_all.len() && p_all[j].0@ == k2);
                            }
                        }
                    }
                    assert forall|k2: Seq<char>|
                        base0.contains_key(k2) || (exists|j: int|
                            k <= j < p_all.len() && (#[trigger] p_all[j]).0@
                                == k2) implies r@.contains_key(k2) by {
                        if k2 != namev {
                            if base0.contains_key(k2) {
                                assert(r_pre.contains_key(k2));
                            } else {
                                let j = choose|j: int|
                                    k <= j < p_all.len() && (#[trigger] p_all[j]).0@ == k2;
                                assert(j != k);
                                assert(k + 1 <= j < p_all.len() && p_all[j].0@ == k2);
                                assert(r_pre.contains_key(k2));
                            }
                        }
                    }
                    assert forall|j: int|
                        k <= j < p_all.len() && !base0.contains_key(
                            (#[trigger] p_all[j]).0@,
                        ) implies r@.contains_key(p_all[j].0@) && r@[p_all[j].0@] == p_all[j].1@ by {
                        if j > k {
                            assert(p_all[j].0@ != p_all[k].0@);
                        } else {
                            assert(!present);
                        }
                    }
                }
            },
        }
    }
    proof {
        let m = spec_merge_props(base0, assoc_map(p_all));
        assert forall|k: Seq<char>|
            #![trigger m.dom().contains(k)]
            #![trigger r@.dom().contains(k)]
            true implies (r@.contains_key(k) <==> m.contains_key(k)) && (r@.contains_key(k)
            ==> r@[k] == m[k]) by {
            lemma_assoc_map_contains(p_all, k);
            if !base0.contains_key(k) && assoc_map(p_all).contains_key(k) {
                let j = choose|j: int| 0 <= j < p_all.len() && (#[trigger] p_all[j]).0@ == k;
                lemma_assoc_map_index(p_all, j);
                assert((#[trigger] p_all[j]).0@ == k);
            }
        }
        assert(r@ =~= m);
    }
    r
}

impl Default for StyleMap {
    /// The global default style map: the slide target and every anonymous
    /// element type, each holding its built-in defaults.
    fn default() -> (r: StyleMap)
        ensures
            r@ == spec_default_map(),
            r.wf(),
    {
        let mut r = StyleMap::new();
        let t = StyleTarget::Slide;
        let s = t.default_style();
        r.add_style(t, s);
        let t = StyleTarget::Anonymous(ElementType::Row);
        let s = t.default_style();
        r.add_style(t, s);
        let t = StyleTarget::Anonymous(ElementType::Col);
        let s = t.default_style();
        r.add_style(t, s);
        let t = StyleTarget::Anonymous(ElementType::Centre);
        let s = t.default_style();
        r.add_style(t, s);
        let t = StyleTarget::Anonymous(ElementType::Padding);
        let s = t.default_style();
        r.add_style(t, s);
        let t = StyleTarget::Anonymous(ElementType::Text);
        let s = t.default_style();
        r.add_style(t, s);
        let t = StyleTarget::Anonymous(ElementType::Code);
        let s = t.default_style();
        r.add_style(t, s);
        let t = StyleTarget::Anonymous(ElementType::Image);
        let s = t.default_style();
        r.add_style(t, s);
        let t = StyleTarget::Anonymous(ElementType::ElNone);
        let s = t.default_style();
        r.add_style(t, s);
        r
    }
}

/// Retrieves a number-valued property from a resolved property set.
pub fn extract_number(map: &PropertySet, property: &str) -> (r: u32)
    requires
        map.wf(),
        map@.contains_key(property@),
        map@[property@] is Number,
    ensures
        PropertyValueView::Number(r) == map@[property@],
{
    match map.get(property) {
        Some(PropertyValue::Number(v)) => *v,
        _ => unreached(),
    }
}

/// Retrieves a string-valued property from a resolved property set.
pub fn extract_string(map: &PropertySet, property: &str) -> (r: String)
    requires
        map.wf(),
        map@.contains_key(property@),
        map@[property@] is String,
    ensures
        PropertyValueView::String(r@) == map@[property@],
{
    match map.get(property) {
        Some(PropertyValue::String(v)) => v.clone(),
        _ => unreached(),
    }
}

/// Retrieves a boolean-valued property from a resolved property set.
pub fn extract_boolean(map: &PropertySet, property: &str) -> (r: bool)
    requires
        map.wf(),
        map@.contains_key(property@),
        map@[property@] is Boolean,
    ensures
        PropertyValueView::Boolean(r) == map@[property@],
{
    match map.get(property) {
        Some(PropertyValue::Boolean(v)) => *v,
        _ => unreached(),
    }
}

/// Retrieves a colour-valued property from a resolved property set.
pub fn extract_colour(map: &PropertySet, property: &str) -> (r: (u8, u8, u8))
    requires
        map.wf(),
        map@.contains_key(property@),
        map@[property@] is Colour,
    ensures
        PropertyValueView::Colour(r.0, r.1, r.2) == map@[property@],
{
    match map.get(property) {
        Some(PropertyValue::Colour(a, b, c)) => (*a, *b, *c),
        _ => unreached(),
    }
}

/// Retrieves a size-spec-valued property from a resolved property set.
pub fn extract_size_spec(map: &PropertySet, property: &str) -> (r: SizeSpec)
    requires
        map.wf(),
        map@.contains_key(property@),
        map@[property@] is SizeSpec,
    ensures
        PropertyValueView::SizeSpec(r) == map@[property@],
{
    match map.get(property) {
        Some(PropertyValue::SizeSpec(v)) => *v,
        _ => unreached(),
    }
}

} // verus!
