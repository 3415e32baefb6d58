//! The document model: a flat arena of content elements addressed by generated
//! numeric identifiers, plus the slides that reference them.

use vstd::prelude::*;

use crate::style::{PropertyValueView, StyleMap, StyleTargetView};
use vstd::pervasive::unreached;
use crate::text::str_eq;

verus! {

/// The identifier of one element (or slide) in a loaded document.
///
/// Identifiers are handed out by a per-document counter starting at 1, so the
/// value 0 never names a real element and serves as a dummy referent.
#[derive(Copy, PartialEq, Eq, PartialOrd, Ord, Hash, Debug, Structural)]
pub struct AbstractElementID(pub u32);

impl Clone for AbstractElementID {
    fn clone(&self) -> (r: Self)
        ensures
            r == *self,
    {
        AbstractElementID(self.0)
    }
}

/// The structural kind of an element, as named by a source-text keyword.
#[derive(Clone, Copy, Debug, Hash, PartialEq, Eq, Structural)]
pub enum ElementType {
    Row,
    Col,
    Centre,
    Padding,
    Text,
    Code,
    Image,
    ElNone,
}

/// The canonical display name of each element type.
pub open spec fn spec_string_rep(t: ElementType) -> Seq<char> {
    match t {
        ElementType::Row => "row"@,
        ElementType::Col => "col"@,
        ElementType::Centre => "centre"@,
        ElementType::Padding => "padding"@,
        ElementType::Text => "text"@,
        ElementType::Code => "code"@,
        ElementType::Image => "image"@,
        ElementType::ElNone => "none"@,
    }
}

/// The element type named by a source-text keyword, if any.
///
/// The keyword for `Image` is `img`, while its display name is `image`.
pub open spec fn spec_element_type_of(s: Seq<char>) -> Option<ElementType> {
    if s == "col"@ {
        Some(ElementType::Col)
    } else if s == "row"@ {
        Some(ElementType::Row)
    } else if s == "text"@ {
        Some(ElementType::Text)
    } else if s == "code"@ {
        Some(ElementType::Code)
    } else if s == "img"@ {
        Some(ElementType::Image)
    } else if s == "none"@ {
        Some(ElementType::ElNone)
    } else if s == "padding"@ {
        Some(ElementType::Padding)
    } else if s == "centre"@ {
        Some(ElementType::Centre)
    } else {
        None
    }
}

impl ElementType {
    /// The display name of this element type.
    pub fn string_rep(&self) -> (r: &'static str)
        ensures
            r@ == spec_string_rep(*self),
    {
        match self {
            ElementType::Row => "row",
            ElementType::Col => "col",
            ElementType::Centre => "centre",
            ElementType::Padding => "padding",
            ElementType::Text => "text",
            ElementType::Code => "code",
            ElementType::Image => "image",
            ElementType::ElNone => "none",
        }
    }

    /// Parses a source-text keyword into an element type.
    pub fn from_name(s: &str) -> (r: Option<ElementType>)
        ensures
            r == spec_element_type_of(s@),
    {
        if str_eq(s, "col") {
            Some(ElementType::Col)
        } else if str_eq(s, "row") {
            Some(ElementType::Row)
        } else if str_eq(s, "text") {
            Some(ElementType::Text)
        } else if str_eq(s, "code") {
            Some(ElementType::Code)
        } else if str_eq(s, "img") {
            Some(ElementType::Image)
        } else if str_eq(s, "none") {
            Some(ElementType::ElNone)
        } else if str_eq(s, "padding") {
            Some(ElementType::Padding)
        } else if str_eq(s, "centre") {
            Some(ElementType::Centre)
        } else {
            None
        }
    }
}

/// The payload of one element: either a container referencing child elements
/// by identifier, or a leaf carrying its own data.
#[derive(Debug, Hash, PartialEq, Eq)]
pub enum AbstractElementData {
    Row(Vec<AbstractElementID>),
    Col(Vec<AbstractElementID>),
    Centre(AbstractElementID),
    Padding(AbstractElementID),
    Text(String),
    Code(String),
    Image(String),
    ElNone,
}

/// The mathematical shape of an element payload: child references as a
/// sequence of identifiers, text as a sequence of characters.
pub enum ElementDataView {
    Row(Seq<AbstractElementID>),
    Col(Seq<AbstractElementID>),
    Centre(AbstractElementID),
    Padding(AbstractElementID),
    Text(Seq<char>),
    Code(Seq<char>),
    Image(Seq<char>),
    ElNone,
}

impl View for AbstractElementData {
    type V = ElementDataView;

    open spec fn view(&self) -> ElementDataView {
        match self {
            AbstractElementData::Row(children) => ElementDataView::Row(children@),
            AbstractElementData::Col(children) => ElementDataView::Col(children@),
            AbstractElementData::Centre(child) => ElementDataView::Centre(*child),
            AbstractElementData::Padding(child) => ElementDataView::Padding(*child),
            AbstractElementData::Text(s) => ElementDataView::Text(s@),
            AbstractElementData::Code(s) => ElementDataView::Code(s@),
            AbstractElementData::Image(s) => ElementDataView::Image(s@),
            AbstractElementData::ElNone => ElementDataView::ElNone,
        }
    }
}

impl Clone for AbstractElementData {
    fn clone(&self) -> (r: Self)
        ensures
            r@ == self@,
    {
        match self {
            AbstractElementData::Row(children) => {
                let c = clone_id_vec(children);
                AbstractElementData::Row(c)
            },
            AbstractElementData::Col(children) => {
                let c = clone_id_vec(children);
                AbstractElementData::Col(c)
            },
            AbstractElementData::Centre(child) => AbstractElementData::Centre(*child),
            AbstractElementData::Padding(child) => AbstractElementData::Padding(*child),
            AbstractElementData::Text(s) => AbstractElementData::Text(s.clone()),
            AbstractElementData::Code(s) => AbstractElementData::Code(s.clone()),
            AbstractElementData::Image(s) => AbstractElementData::Image(s.clone()),
            AbstractElementData::ElNone => AbstractElementData::ElNone,
        }
    }
}

/// Copies a vector of element identifiers.
fn clone_id_vec(v: &Vec<AbstractElementID>) -> (r: Vec<AbstractElementID>)
    ensures
        r@ == v@,
{
    let mut r: Vec<AbstractElementID> = Vec::new();
    let mut i: usize = 0;
    while i < v.len()
        invariant
            0 <= i <= v@.len(),
            r@ == v@.subrange(0, i as int),
        decreases v@.len() - i,
    {
        r.push(v[i]);
        proof {
            assert(r@ =~= v@.subrange(0, i + 1 as int));
        }
        i = i + 1;
    }
    proof {
        assert(r@ =~= v@);
    }
    r
}

/// One node of the document tree: its payload, kind, identifier, and the
/// user-supplied name, if the source gave one.
#[derive(Debug)]
pub struct AbstractElement {
    pub data: AbstractElementData,
    pub el_type: ElementType,
    pub id: AbstractElementID,
    pub name: Option<String>,
}

/// The mathematical shape of one element.
pub struct ElementView {
    pub data: ElementDataView,
    pub el_type: ElementType,
    pub id: AbstractElementID,
    pub name: Option<Seq<char>>,
}

impl View for AbstractElement {
    type V = ElementView;

    open spec fn view(&self) -> ElementView {
        ElementView {
            data: self.data@,
            el_type: self.el_type,
            id: self.id,
            name: self.name.deep_view(),
        }
    }
}

impl AbstractElement {
    /// The element's payload.
    pub fn data(&self) -> (r: &AbstractElementData)
        ensures
            r@ == self@.data,
    {
        &self.data
    }

    /// The element's user-supplied name, if any.
    pub fn name(&self) -> (r: &Option<String>)
        ensures
            r.deep_view() == self@.name,
    {
        &self.name
    }

    /// The element's structural kind.
    pub fn el_type(&self) -> (r: ElementType)
        ensures
            r == self@.el_type,
    {
        self.el_type
    }

    /// The element's identifier.
    pub fn id(&self) -> (r: AbstractElementID)
        ensures
            r == self@.id,
    {
        self.id
    }
}


impl Clone for AbstractElement {
    fn clone(&self) -> (r: Self)
        ensures
            r@ == self@,
            r.id == self.id,
    {
        AbstractElement {
            data: self.data.clone(),
            el_type: self.el_type,
            id: self.id,
            name: match &self.name {
                Some(s) => Some(s.clone()),
                None => None,
            },
        }
    }
}

/// The child identifiers referenced by an element payload, in order.
pub open spec fn elem_children(d: ElementDataView) -> Seq<AbstractElementID> {
    match d {
        ElementDataView::Row(children) => children,
        ElementDataView::Col(children) => children,
        ElementDataView::Centre(child) => seq![child],
        ElementDataView::Padding(child) => seq![child],
        ElementDataView::Text(_) => Seq::empty(),
        ElementDataView::Code(_) => Seq::empty(),
        ElementDataView::Image(_) => Seq::empty(),
        ElementDataView::ElNone => Seq::empty(),
    }
}

/// Some element among the first `bound` carries identifier `id`.
pub open spec fn has_id_below(els: Seq<AbstractElement>, id: AbstractElementID, bound: int) -> bool {
    exists|j: int| 0 <= j < bound && (#[trigger] els[j]).id == id
}

/// Some element of the arena carries identifier `id`.
pub open spec fn spec_has_id(els: Seq<AbstractElement>, id: AbstractElementID) -> bool {
    has_id_below(els, id, els.len() as int)
}

/// The position of the element carrying `id`.
pub open spec fn spec_index_of_id(els: Seq<AbstractElement>, id: AbstractElementID) -> int {
    choose|j: int| 0 <= j < els.len() && (#[trigger] els[j]).id == id
}

/// One presentation slide: its own identifier, the root of its content tree,
/// and its resolved style map.
#[derive(Debug, Clone)]
pub struct Slide {
    pub id: AbstractElementID,
    pub content: AbstractElementID,
    pub styles: StyleMap,
}

/// The mathematical shape of one slide.
pub struct SlideView {
    pub id: AbstractElementID,
    pub content: AbstractElementID,
    pub styles: Map<StyleTargetView, Map<Seq<char>, PropertyValueView>>,
}

impl View for Slide {
    type V = SlideView;

    open spec fn view(&self) -> SlideView {
        SlideView { id: self.id, content: self.content, styles: self.styles@ }
    }
}

impl DeepView for Slide {
    type V = SlideView;

    open spec fn deep_view(&self) -> SlideView {
        self@
    }
}

impl Slide {
    /// Builds a slide around a content root, drawing a fresh identifier from
    /// the document's counter.
    pub fn new(global: &mut GlobalState, content: AbstractElementID, styles: StyleMap) -> (s: Slide)
        requires
            old(global).unassigned_id < u32::MAX,
        ensures
            s == (Slide {
                id: AbstractElementID((old(global).unassigned_id + 1) as u32),
                content,
                styles,
            }),
            final(global).unassigned_id == old(global).unassigned_id + 1,
            final(global).elements == old(global).elements,
            final(global).slides == old(global).slides,
    {
        let id = global.generate_id();
        Slide { content, styles, id }
    }

    /// The slide's resolved style map.
    pub fn style_map(&self) -> (r: &StyleMap)
        ensures
            *r == self.styles,
    {
        &self.styles
    }

    /// The root identifier of the slide's content tree.
    pub fn content(&self) -> (r: AbstractElementID)
        ensures
            r == self.content,
    {
        self.content
    }

    /// The slide's own identifier.
    pub fn id(&self) -> (r: AbstractElementID)
        ensures
            r == self.id,
    {
        self.id
    }
}

/// The state of one loaded document: the identifier counter, the ordered
/// slides, and the arena owning every content element.
#[derive(Debug)]
pub struct GlobalState {
    pub unassigned_id: u32,
    pub slides: Vec<Slide>,
    pub elements: Vec<AbstractElement>,
}

impl GlobalState {
    /// The arena invariant: identifiers are at least 1, do not exceed the
    /// counter, strictly increase in push order, and every child reference
    /// points at an element pushed earlier than its parent.
    pub open spec fn wf(&self) -> bool {
        &&& forall|i: int|
            0 <= i < self.elements@.len() ==> 1 <= (#[trigger] self.elements@[i]).id.0
                <= self.unassigned_id
        &&& forall|i: int, j: int|
            0 <= i < j < self.elements@.len() ==> (#[trigger] self.elements@[i]).id.0 < (
            #[trigger] self.elements@[j]).id.0
        &&& forall|i: int, ci: int|
            #![trigger elem_children(self.elements@[i]@.data)[ci]]
            0 <= i < self.elements@.len() && 0 <= ci < elem_children(self.elements@[i]@.data).len()
                ==> has_id_below(self.elements@, elem_children(self.elements@[i]@.data)[ci], i)
    }

    /// A fresh, empty document.
    pub fn new() -> (r: GlobalState)
        ensures
            r.unassigned_id == 0,
            r.slides@.len() == 0,
            r.elements@.len() == 0,
            r.wf(),
    {
        GlobalState { unassigned_id: 0, slides: Vec::new(), elements: Vec::new() }
    }

    /// Appends a finished slide.
    pub fn push_slide(&mut self, slide: Slide)
        ensures
            final(self).slides@ == old(self).slides@.push(slide),
            final(self).elements == old(self).elements,
            final(self).unassigned_id == old(self).unassigned_id,
    {
        self.slides.push(slide);
    }

    /// Hands out the next identifier. Because the first value returned is 1,
    /// an identifier of 0 is always invalid and serves as a dummy referent.
    fn generate_id(&mut self) -> (id: AbstractElementID)
        requires
            old(self).unassigned_id < u32::MAX,
        ensures
            id == AbstractElementID((old(self).unassigned_id + 1) as u32),
            final(self).unassigned_id == old(self).unassigned_id + 1,
            final(self).elements == old(self).elements,
            final(self).slides == old(self).slides,
    {
        self.unassigned_id = self.unassigned_id + 1;
        AbstractElementID(self.unassigned_id)
    }

    /// Pushes a new element into the arena under the next identifier.
    ///
    /// Children referenced by the payload must already be in the arena, which
    /// keeps the arena invariant: parents always follow their children.
    pub fn push_element(&mut self, data: AbstractElementData, el_type: ElementType, name: Option<
        String,
    >) -> (id: AbstractElementID)
        requires
            old(self).wf(),
            old(self).unassigned_id < u32::MAX,
            forall|ci: int|
                0 <= ci < elem_children(data@).len() ==> spec_has_id(
                    old(self).elements@,
                    #[trigger] elem_children(data@)[ci],
                ),
        ensures
            final(self).wf(),
            id == AbstractElementID((old(self).unassigned_id + 1) as u32),
            final(self).unassigned_id == old(self).unassigned_id + 1,
            final(self).slides == old(self).slides,
            final(self).elements@ == old(self).elements@.push(
                AbstractElement { data, el_type, id, name },
            ),
    {
        let id = self.generate_id();
        let ghost els_pre = self.elements@;
        self.elements.push(AbstractElement { data, name, id, el_type });
        proof {
            let els = self.elements@;
            let n = els.len() - 1;
            assert forall|i: int, ci: int|
                #![trigger elem_children(els[i]@.data)[ci]]
                0 <= i < els.len() && 0 <= ci < elem_children(els[i]@.data).len() implies
                has_id_below(els, elem_children(els[i]@.data)[ci], i) by {
                if i < n {
                    assert(els[i] == els_pre[i]);
                    assert(has_id_below(els_pre, elem_children(els_pre[i]@.data)[ci], i));
                    let j = choose|j: int|
                        0 <= j < i && (#[trigger] els_pre[j]).id == elem_children(
                            els_pre[i]@.data,
                        )[ci];
                    assert(els[j] == els_pre[j]);
                } else {
                    assert(spec_has_id(els_pre, elem_children(data@)[ci]));
                    let j = choose|j: int|
                        0 <= j < els_pre.len() && (#[trigger] els_pre[j]).id == elem_children(
                            data@,
                        )[ci];
                    assert(els[j] == els_pre[j]);
                }
            }
        }
        id
    }

    /// Looks an element up by its identifier, returning a copy.
    pub fn get_element_by_id(&self, id: AbstractElementID) -> (r: Option<AbstractElement>)
        requires
            self.wf(),
        ensures
            match r {
                Some(e) => spec_has_id(self.elements@, id) && e@ == self.elements@[spec_index_of_id(
                    self.elements@,
                    id,
                )]@ && e.id == id,
                None => !spec_has_id(self.elements@, id),
            },
    {
        let mut i: usize = 0;
        while i < self.elements.len()
            invariant
                self.wf(),
                0 <= i <= self.elements@.len(),
                forall|j: int| 0 <= j < i ==> (#[trigger] self.elements@[j]).id != id,
            decreases self.elements@.len() - i,
        {
            if self.elements[i].id.0 == id.0 {
                proof {
                    assert(self.elements@[i as int].id == id);
                    let j = spec_index_of_id(self.elements@, id);
                    if j != i as int {
                        assert(self.elements@[j].id.0 != self.elements@[i as int].id.0);
                    }
                }
                return Some(self.elements[i].clone());
            }
            i = i + 1;
        }
        None
    }

    /// The number of slides in the document.
    pub fn number_of_slides(&self) -> (r: usize)
        ensures
            r == self.slides@.len(),
    {
        self.slides.len()
    }

    /// The number of elements in the arena.
    pub fn number_of_elements(&self) -> (r: usize)
        ensures
            r == self.elements@.len(),
    {
        self.elements.len()
    }
}

/// Law: in a well-formed document the element identifiers strictly increase
/// in arena order, and 0 never appears as an element's identifier. Together
/// with `load`'s contract — a load into a fresh document gives the first
/// element the identifier 1 — this pins the identifier assignment down.
pub proof fn lemma_ids_strictly_increasing(g: GlobalState)
    requires
        g.wf(),
    ensures
        forall|i: int, j: int|
            0 <= i < j < g.elements@.len() ==> (#[trigger] g.elements@[i]).id.0 < (
            #[trigger] g.elements@[j]).id.0,
        forall|i: int| 0 <= i < g.elements@.len() ==> (#[trigger] g.elements@[i]).id.0 >= 1,
{
}


/// The pre-order traversal of the subtree rooted at `id`: the root first,
/// then each child's subtree in order. Recursion is guarded by the arena
/// invariant that children carry smaller identifiers than their parent.
pub open spec fn spec_traverse(els: Seq<AbstractElement>, id: AbstractElementID) -> Seq<
    AbstractElementID,
>
    decreases id.0, 1int, 0int,
{
    if spec_has_id(els, id) {
        seq![id] + spec_traverse_all(els, elem_children(els[spec_index_of_id(els, id)]@.data), id)
    } else {
        Seq::empty()
    }
}

/// The concatenated traversals of `ids`, each of which must carry an
/// identifier smaller than `bound`.
pub open spec fn spec_traverse_all(
    els: Seq<AbstractElement>,
    ids: Seq<AbstractElementID>,
    bound: AbstractElementID,
) -> Seq<AbstractElementID>
    decreases bound.0, 0int, ids.len(),
{
    if ids.len() == 0 {
        Seq::empty()
    } else {
        (if ids[0].0 < bound.0 {
            spec_traverse(els, ids[0])
        } else {
            Seq::empty()
        }) + spec_traverse_all(els, ids.drop_first(), bound)
    }
}

/// Appending one identifier to a traversal list appends its subtree.
pub proof fn lemma_traverse_all_snoc(
    els: Seq<AbstractElement>,
    ids: Seq<AbstractElementID>,
    x: AbstractElementID,
    bound: AbstractElementID,
)
    ensures
        spec_traverse_all(els, ids.push(x), bound) == spec_traverse_all(els, ids, bound) + (if x.0
            < bound.0 {
            spec_traverse(els, x)
        } else {
            Seq::empty()
        }),
    decreases ids.len(),
{
    let tail = if x.0 < bound.0 {
        spec_traverse(els, x)
    } else {
        Seq::<AbstractElementID>::empty()
    };
    if ids.len() == 0 {
        assert(ids.push(x)[0] == x);
        assert(ids.push(x).drop_first() =~= Seq::<AbstractElementID>::empty());
        assert(spec_traverse_all(els, ids.push(x).drop_first(), bound) == Seq::<
            AbstractElementID,
        >::empty());
        assert(spec_traverse_all(els, ids.push(x), bound) =~= spec_traverse_all(els, ids, bound)
            + tail);
    } else {
        let head = if ids[0].0 < bound.0 {
            spec_traverse(els, ids[0])
        } else {
            Seq::<AbstractElementID>::empty()
        };
        assert(ids.push(x)[0] == ids[0]);
        assert(ids.push(x).drop_first() =~= ids.drop_first().push(x));
        lemma_traverse_all_snoc(els, ids.drop_first(), x, bound);
        assert(spec_traverse_all(els, ids.push(x), bound) == head + spec_traverse_all(
            els,
            ids.drop_first().push(x),
            bound,
        ));
        assert(spec_traverse_all(els, ids, bound) == head + spec_traverse_all(
            els,
            ids.drop_first(),
            bound,
        ));
        assert(head + (spec_traverse_all(els, ids.drop_first(), bound) + tail) =~= (head
            + spec_traverse_all(els, ids.drop_first(), bound)) + tail);
    }
}

/// The arena elements carrying the given identifiers, in order; identifiers
/// not present in the arena are skipped.
pub open spec fn spec_elements_of(els: Seq<AbstractElement>, ids: Seq<AbstractElementID>) -> Seq<
    AbstractElement,
>
    decreases ids.len(),
{
    if ids.len() == 0 {
        Seq::empty()
    } else {
        (if spec_has_id(els, ids[0]) {
            seq![els[spec_index_of_id(els, ids[0])]]
        } else {
            Seq::empty()
        }) + spec_elements_of(els, ids.drop_first())
    }
}

/// Appending one identifier to a lookup list appends its element, if present.
pub proof fn lemma_elements_of_snoc(
    els: Seq<AbstractElement>,
    ids: Seq<AbstractElementID>,
    x: AbstractElementID,
)
    ensures
        spec_elements_of(els, ids.push(x)) == spec_elements_of(els, ids) + (if spec_has_id(
            els,
            x,
        ) {
            seq![els[spec_index_of_id(els, x)]]
        } else {
            Seq::empty()
        }),
    decreases ids.len(),
{
    let tail = if spec_has_id(els, x) {
        seq![els[spec_index_of_id(els, x)]]
    } else {
        Seq::<AbstractElement>::empty()
    };
    if ids.len() == 0 {
        assert(ids.push(x)[0] == x);
        assert(ids.push(x).drop_first() =~= Seq::<AbstractElementID>::empty());
        assert(spec_elements_of(els, ids.push(x).drop_first()) == Seq::<AbstractElement>::empty());
        assert(spec_elements_of(els, ids.push(x)) =~= spec_elements_of(els, ids) + tail);
    } else {
        let head = if spec_has_id(els, ids[0]) {
            seq![els[spec_index_of_id(els, ids[0])]]
        } else {
            Seq::<AbstractElement>::empty()
        };
        assert(ids.push(x)[0] == ids[0]);
        assert(ids.push(x).drop_first() =~= ids.drop_first().push(x));
        lemma_elements_of_snoc(els, ids.drop_first(), x);
        assert(spec_elements_of(els, ids.push(x)) == head + spec_elements_of(
            els,
            ids.drop_first().push(x),
        ));
        assert(spec_elements_of(els, ids) == head + spec_elements_of(els, ids.drop_first()));
        assert(head + (spec_elements_of(els, ids.drop_first()) + tail) =~= (head
            + spec_elements_of(els, ids.drop_first())) + tail);
    }
}

impl GlobalState {
    /// Collects, pre-order and root first, the identifiers of every element
    /// in the subtree rooted at `id`.
    pub fn traverse(&self, id: AbstractElementID) -> (r: Vec<AbstractElementID>)
        requires
            self.wf(),
            spec_has_id(self.elements@, id),
        ensures
            r@ == spec_traverse(self.elements@, id),
        decreases id.0,
    {
        let ghost els = self.elements@;
        let ghost idx = spec_index_of_id(els, id);
        let elem = match self.get_element_by_id(id) {
            Some(e) => e,
            None => unreached(),
        };
        let ghost kids = elem_children(els[idx]@.data);
        proof {
            assert(elem@.data == els[idx]@.data);
            assert forall|k: int| 0 <= k < kids.len() implies (#[trigger] kids[k]).0 < id.0
                && spec_has_id(els, kids[k]) by {
                assert(elem_children(els[idx]@.data)[k] == kids[k]);
                assert(has_id_below(els, kids[k], idx));
                let j = choose|j: int| 0 <= j < idx && (#[trigger] els[j]).id == kids[k];
                assert(els[j].id.0 < els[idx].id.0);
            }
            assert(spec_traverse(els, id) == seq![id] + spec_traverse_all(els, kids, id));
        }
        let mut r: Vec<AbstractElementID> = Vec::new();
        r.push(id);
        match elem.data() {
            AbstractElementData::Row(children) | AbstractElementData::Col(children) => {
                proof {
                    assert(kids == children@);
                }
                let mut ci: usize = 0;
                while ci < children.len()
                    invariant
                        self.wf(),
                        els == self.elements@,
                        kids == children@,
                        0 <= ci <= children@.len(),
                        forall|k: int|
                            0 <= k < kids.len() ==> (#[trigger] kids[k]).0 < id.0 && spec_has_id(
                                els,
                                kids[k],
                            ),
                        r@ == seq![id] + spec_traverse_all(els, kids.take(ci as int), id),
                    decreases children@.len() - ci,
                {
                    let mut sub = self.traverse(children[ci]);
                    r.append(&mut sub);
                    proof {
                        lemma_traverse_all_snoc(els, kids.take(ci as int), kids[ci as int], id);
                        assert(kids.take(ci + 1 as int) =~= kids.take(ci as int).push(
                            kids[ci as int],
                        ));
                        assert(r@ =~= seq![id] + spec_traverse_all(
                            els,
                            kids.take(ci + 1 as int),
                            id,
                        ));
                    }
                    ci = ci + 1;
                }
                proof {
                    assert(kids.take(children@.len() as int) =~= kids);
                }
            },
            AbstractElementData::Centre(child) | AbstractElementData::Padding(child) => {
                proof {
                    assert(kids == seq![*child]);
                    assert(kids[0] == *child);
                }
                let mut sub = self.traverse(*child);
                r.append(&mut sub);
                proof {
                    assert(kids[0].0 < id.0);
                    assert(kids.drop_first() =~= Seq::<AbstractElementID>::empty());
                    assert(spec_traverse_all(els, kids.drop_first(), id)
                        == Seq::<AbstractElementID>::empty());
                    assert(spec_traverse_all(els, kids, id) =~= spec_traverse(els, *child));
                    assert(r@ =~= seq![id] + spec_traverse_all(els, kids, id));
                }
            },
            AbstractElementData::Text(_) | AbstractElementData::Code(_)
                | AbstractElementData::Image(_) | AbstractElementData::ElNone => {
                proof {
                    assert(kids.len() == 0);
                    assert(spec_traverse_all(els, kids, id) =~= Seq::<AbstractElementID>::empty());
                    assert(r@ =~= seq![id] + spec_traverse_all(els, kids, id));
                }
            },
        }
        r
    }

    /// Collects copies of every element of a slide's content tree, pre-order
    /// and root first.
    pub fn get_slide_elements(&self, slide: &Slide) -> (r: Vec<AbstractElement>)
        requires
            self.wf(),
            spec_has_id(self.elements@, slide.content),
        ensures
            r@.len() == spec_elements_of(
                self.elements@,
                spec_traverse(self.elements@, slide.content),
            ).len(),
            forall|i: int|
                0 <= i < r@.len() ==> (#[trigger] r@[i])@ == spec_elements_of(
                    self.elements@,
                    spec_traverse(self.elements@, slide.content),
                )[i]@,
    {
        let ghost els = self.elements@;
        let ids = self.traverse(slide.content);
        let mut r: Vec<AbstractElement> = Vec::new();
        let mut i: usize = 0;
        while i < ids.len()
            invariant
                self.wf(),
                els == self.elements@,
                0 <= i <= ids@.len(),
                r@.len() == spec_elements_of(els, ids@.take(i as int)).len(),
                forall|k: int|
                    0 <= k < r@.len() ==> (#[trigger] r@[k])@ == spec_elements_of(
                        els,
                        ids@.take(i as int),
                    )[k]@,
            decreases ids@.len() - i,
        {
            let ghost pre = spec_elements_of(els, ids@.take(i as int));
            match self.get_element_by_id(ids[i]) {
                Some(e) => {
                    r.push(e);
                },
                None => {},
            }
            proof {
                lemma_elements_of_snoc(els, ids@.take(i as int), ids@[i as int]);
                assert(ids@.take(i + 1 as int) =~= ids@.take(i as int).push(ids@[i as int]));
                let post = spec_elements_of(els, ids@.take(i + 1 as int));
                assert forall|k: int| 0 <= k < r@.len() implies (#[trigger] r@[k])@ == post[k]@ by {
                    if k < pre.len() {
                        assert(post[k] == pre[k]);
                    }
                }
            }
            i = i + 1;
        }
        proof {
            assert(ids@.take(ids@.len() as int) =~= ids@);
        }
        r
    }
}

} // verus!
