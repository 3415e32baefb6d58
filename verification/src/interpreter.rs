//! The content parser and the top-level loader.
//!
//! A slide's tokens are parsed by recursive descent: one element definition
//! at the front of the stream, leaving trailing style directives for the
//! style parser. The grammar, and exactly which error each malformed input
//! produces, is written down once, as the specification functions below; the
//! executable parser is proved to return precisely what they describe.

use vstd::prelude::*;

use crate::ast::{
    elem_children, spec_element_type_of, spec_has_id, AbstractElementData, AbstractElementID,
    ElementDataView, ElementType, ElementView, GlobalState, Slide, SlideView,
};
use crate::error::{Expectation, FoliumError, FoliumErrorView};
use crate::lexer::{lex, FatToken, FatTokenView, TokenView};

pub use crate::lexer::{Token, TokenLocation};
use crate::style::{
    spec_default_map, spec_fill_in, PropertySet, PropertyValue, PropertyValueView, StyleMap,
    StyleTarget, StyleTargetView,
};

verus! {

/// One parsed element, before it receives its arena slot: identifier `id`,
/// counted from the arena's counter.
pub open spec fn mk_elem(
    data: ElementDataView,
    et: ElementType,
    name: Option<Seq<char>>,
    id: int,
) -> ElementView {
    ElementView { data, el_type: et, id: AbstractElementID(id as u32), name }
}

/// The index of the argument-list token that brings the nesting depth from
/// `depth` back to 0 — the exclusive end of the body that starts at `i` — or
/// `end` if the depth never returns to 0.
pub open spec fn body_end(toks: Seq<FatTokenView>, i: int, end: int, depth: int) -> int
    decreases end - i,
{
    if i < 0 || i >= end {
        end
    } else {
        match toks[i].token {
            TokenView::OpeningArgsParen => body_end(toks, i + 1, end, depth + 1),
            TokenView::ClosingArgsParen => {
                if depth == 1 {
                    i
                } else {
                    body_end(toks, i + 1, end, depth - 1)
                }
            },
            _ => body_end(toks, i + 1, end, depth),
        }
    }
}

/// The body's end lies between its start and the window's end.
pub proof fn lemma_body_end_bounds(toks: Seq<FatTokenView>, i: int, end: int, depth: int)
    requires
        0 <= i <= end,
    ensures
        i <= body_end(toks, i, end, depth) <= end,
    decreases end - i,
{
    if i < end {
        match toks[i].token {
            TokenView::OpeningArgsParen => lemma_body_end_bounds(toks, i + 1, end, depth + 1),
            TokenView::ClosingArgsParen => {
                if depth != 1 {
                    lemma_body_end_bounds(toks, i + 1, end, depth - 1);
                }
            },
            _ => lemma_body_end_bounds(toks, i + 1, end, depth),
        }
    }
}

/// The index of the first list separator at argument-list depth 0 in
/// `[i, end)`, or `end` if there is none.
pub open spec fn next_comma(toks: Seq<FatTokenView>, i: int, end: int, depth: int) -> int
    decreases end - i,
{
    if i < 0 || i >= end {
        end
    } else {
        match toks[i].token {
            TokenView::OpeningArgsParen => next_comma(toks, i + 1, end, depth + 1),
            TokenView::ClosingArgsParen => next_comma(
                toks,
                i + 1,
                end,
                if depth == 0 {
                    0
                } else {
                    depth - 1
                },
            ),
            TokenView::ListSeparator => {
                if depth == 0 {
                    i
                } else {
                    next_comma(toks, i + 1, end, depth)
                }
            },
            _ => next_comma(toks, i + 1, end, depth),
        }
    }
}

/// The next child boundary lies between the scan start and the window's end.
pub proof fn lemma_next_comma_bounds(toks: Seq<FatTokenView>, i: int, end: int, depth: int)
    requires
        0 <= i <= end,
    ensures
        i <= next_comma(toks, i, end, depth) <= end,
    decreases end - i,
{
    if i < end {
        match toks[i].token {
            TokenView::OpeningArgsParen => lemma_next_comma_bounds(toks, i + 1, end, depth + 1),
            TokenView::ClosingArgsParen => lemma_next_comma_bounds(
                toks,
                i + 1,
                end,
                if depth == 0 {
                    0
                } else {
                    depth - 1
                },
            ),
            TokenView::ListSeparator => {
                if depth != 0 {
                    lemma_next_comma_bounds(toks, i + 1, end, depth);
                }
            },
            _ => lemma_next_comma_bounds(toks, i + 1, end, depth),
        }
    }
}

/// Parses one element definition at `pos` in the window `[pos, end)`, with
/// the arena counter at `base`. On success: the elements to push, in push
/// order with the defined element last, and the position just past the
/// definition. Identifiers count up from `base + 1` in push order.
///
/// A window with no token at all has no position to point at, so that error
/// carries the zero location.
pub open spec fn spec_parse_element(
    toks: Seq<FatTokenView>,
    pos: int,
    end: int,
    base: int,
) -> Result<(Seq<ElementView>, int), FoliumErrorView>
    decreases end - pos, 2int, 0int,
{
    if pos < 0 || pos >= end {
        Err(
            FoliumErrorView::UnexpectedFileEndWithReason {
                location: TokenLocation { line: 0, col: 0 },
                expected: Expectation::ContentTypeOrName,
            },
        )
    } else {
        match toks[pos].token {
            TokenView::Ident(w) => match spec_element_type_of(w) {
                Some(et) => {
                    // a type keyword: the element is anonymous
                    if pos + 1 >= end {
                        Err(
                            FoliumErrorView::UnexpectedFileEndWithToken {
                                location: toks[pos].location,
                                expected: TokenView::OpeningArgsParen,
                            },
                        )
                    } else {
                        match toks[pos + 1].token {
                            TokenView::Definition => Err(
                                FoliumErrorView::UseOfContentTypeName {
                                    location: toks[pos + 1].location,
                                    word: w,
                                },
                            ),
                            TokenView::OpeningArgsParen => spec_parse_body(
                                toks,
                                pos,
                                pos + 2,
                                end,
                                base,
                                et,
                                None,
                            ),
                            _ => Err(
                                FoliumErrorView::ExpectedToken {
                                    location: toks[pos + 1].location,
                                    expected: TokenView::OpeningArgsParen,
                                    got: toks[pos + 1].token,
                                },
                            ),
                        }
                    }
                },
                None => {
                    // a name: `name :: type ( ... )`
                    if pos + 1 >= end {
                        Err(
                            FoliumErrorView::UnexpectedFileEndWithToken {
                                location: toks[pos].location,
                                expected: TokenView::Definition,
                            },
                        )
                    } else {
                        match toks[pos + 1].token {
                            TokenView::Definition => {
                                if pos + 2 >= end {
                                    Err(
                                        FoliumErrorView::UnexpectedFileEndWithReason {
                                            location: toks[pos + 1].location,
                                            expected: Expectation::ContentType,
                                        },
                                    )
                                } else {
                                    match toks[pos + 2].token {
                                        TokenView::Ident(w2) => match spec_element_type_of(w2) {
                                            Some(et) => {
                                                if pos + 3 >= end {
                                                    Err(
                                                        FoliumErrorView::UnexpectedFileEndWithToken {
                                                            location: toks[pos].location,
                                                            expected: TokenView::OpeningArgsParen,
                                                        },
                                                    )
                                                } else {
                                                    match toks[pos + 3].token {
                                                        TokenView::OpeningArgsParen => spec_parse_body(
                                                            toks,
                                                            pos,
                                                            pos + 4,
                                                            end,
                                                            base,
                                                            et,
                                                            Some(w),
                                                        ),
                                                        _ => Err(
                                                            FoliumErrorView::ExpectedToken {
                                                                location: toks[pos + 3].location,
                                                                expected: TokenView::OpeningArgsParen,
                                                                got: toks[pos + 3].token,
                                                            },
                                                        ),
                                                    }
                                                }
                                            },
                                            None => Err(
                                                FoliumErrorView::UnknownType {
                                                    location: toks[pos + 2].location,
                                                    offending_token: w2,
                                                },
                                            ),
                                        },
                                        _ => Err(
                                            FoliumErrorView::ExpectedReason {
                                                location: toks[pos + 2].location,
                                                expected: Expectation::ContentType,
                                                got: toks[pos + 2].token,
                                            },
                                        ),
                                    }
                                }
                            },
                            _ => Err(
                                FoliumErrorView::ExpectedToken {
                                    location: toks[pos + 1].location,
                                    expected: TokenView::Definition,
                                    got: toks[pos + 1].token,
                                },
                            ),
                        }
                    }
                },
            },
            _ => Err(
                FoliumErrorView::ExpectedReason {
                    location: toks[pos].location,
                    expected: Expectation::ContentTypeOrName,
                    got: toks[pos].token,
                },
            ),
        }
    }
}

/// Parses an element's argument-list body, which starts just past the
/// opening paren at `body_start`; `loc_pos` is the position of the
/// definition's first token, used for end-of-input diagnostics.
pub open spec fn spec_parse_body(
    toks: Seq<FatTokenView>,
    loc_pos: int,
    body_start: int,
    end: int,
    base: int,
    et: ElementType,
    name: Option<Seq<char>>,
) -> Result<(Seq<ElementView>, int), FoliumErrorView>
    decreases end - body_start + 1, 1int, 0int,
    via spec_parse_body_dec
{
    let bend = body_end(toks, body_start, end, 1);
    let nxt = if bend < end {
        bend + 1
    } else {
        end
    };
    if !(0 <= body_start <= bend <= end) {
        Err(
            FoliumErrorView::UnexpectedFileEndWithReason {
                location: TokenLocation { line: 0, col: 0 },
                expected: Expectation::ContentTypeOrName,
            },
        )
    } else {
        match et {
            ElementType::ElNone => Ok(
                (seq![mk_elem(ElementDataView::ElNone, et, name, base + 1)], nxt),
            ),
            ElementType::Text | ElementType::Code | ElementType::Image => {
                if body_start >= bend {
                    Err(
                        FoliumErrorView::UnexpectedFileEndWithReason {
                            location: toks[loc_pos].location,
                            expected: Expectation::StringValue,
                        },
                    )
                } else {
                    match toks[body_start].token {
                        TokenView::Value(PropertyValueView::String(text)) => {
                            let data = if et is Text {
                                ElementDataView::Text(text)
                            } else if et is Code {
                                ElementDataView::Code(text)
                            } else {
                                ElementDataView::Image(text)
                            };
                            Ok((seq![mk_elem(data, et, name, base + 1)], nxt))
                        },
                        _ => Err(
                            FoliumErrorView::ExpectedReason {
                                location: toks[body_start].location,
                                expected: Expectation::StringValue,
                                got: toks[body_start].token,
                            },
                        ),
                    }
                }
            },
            ElementType::Centre | ElementType::Padding => {
                match spec_parse_element(toks, body_start, bend, base) {
                    Ok((els, _)) => {
                        let child = AbstractElementID((base + els.len()) as u32);
                        let data = if et is Centre {
                            ElementDataView::Centre(child)
                        } else {
                            ElementDataView::Padding(child)
                        };
                        Ok((els.push(mk_elem(data, et, name, base + els.len() + 1)), nxt))
                    },
                    Err(e) => Err(e),
                }
            },
            ElementType::Row | ElementType::Col => {
                match spec_parse_children(toks, body_start, bend, base) {
                    Ok((els, ids)) => {
                        let data = if et is Row {
                            ElementDataView::Row(ids)
                        } else {
                            ElementDataView::Col(ids)
                        };
                        Ok((els.push(mk_elem(data, et, name, base + els.len() + 1)), nxt))
                    },
                    Err(e) => Err(e),
                }
            },
        }
    }
}

#[via_fn]
proof fn spec_parse_body_dec(
    toks: Seq<FatTokenView>,
    loc_pos: int,
    body_start: int,
    end: int,
    base: int,
    et: ElementType,
    name: Option<Seq<char>>,
) {
    if 0 <= body_start <= end {
        lemma_body_end_bounds(toks, body_start, end, 1);
    }
}

/// Parses the children of a row or column: the body window is split at list
/// separators that sit at depth 0; each non-empty piece is parsed as one
/// child element, so a trailing separator adds no child. On success: the
/// elements to push and the children's root identifiers, in order.
pub open spec fn spec_parse_children(
    toks: Seq<FatTokenView>,
    i: int,
    end: int,
    base: int,
) -> Result<(Seq<ElementView>, Seq<AbstractElementID>), FoliumErrorView>
    decreases end - i + 1, 0int, 0int,
    via spec_parse_children_dec
{
    if i < 0 || i >= end {
        Ok((Seq::empty(), Seq::empty()))
    } else {
        let b = next_comma(toks, i, end, 0);
        if b <= i {
            // an empty piece: a leading separator, skipped
            spec_parse_children(toks, i + 1, end, base)
        } else {
            match spec_parse_element(toks, i, b, base) {
                Ok((els, _)) => {
                    let root = AbstractElementID((base + els.len()) as u32);
                    if b >= end {
                        Ok((els, seq![root]))
                    } else {
                        match spec_parse_children(toks, b + 1, end, base + els.len()) {
                            Ok((els2, ids2)) => Ok((els + els2, seq![root] + ids2)),
                            Err(e) => Err(e),
                        }
                    }
                },
                Err(e) => Err(e),
            }
        }
    }
}

#[via_fn]
proof fn spec_parse_children_dec(toks: Seq<FatTokenView>, i: int, end: int, base: int) {
    if 0 <= i <= end {
        lemma_next_comma_bounds(toks, i, end, 0);
    }
}


/// Facts about a successful element parse: at least one element and at most
/// one per remaining token is pushed, the next position stays inside the
/// window, and identifiers count up from `base + 1` in push order.
pub proof fn lemma_parse_element_facts(toks: Seq<FatTokenView>, pos: int, end: int, base: int)
    requires
        spec_parse_element(toks, pos, end, base) is Ok,
    ensures
        ({
            let (els, np) = spec_parse_element(toks, pos, end, base)->Ok_0;
            &&& 1 <= els.len() <= end - pos - 1
            &&& pos + 2 <= np <= end
            &&& forall|k: int|
                0 <= k < els.len() ==> (#[trigger] els[k]).id == AbstractElementID(
                    ((base + k + 1) as u32),
                )
        }),
    decreases end - pos, 2int, 0int,
{
    let r = spec_parse_element(toks, pos, end, base);
    match toks[pos].token {
        TokenView::Ident(w) => match spec_element_type_of(w) {
            Some(et) => {
                lemma_parse_body_facts(toks, pos, pos + 2, end, base, et, None);
            },
            None => {
                if pos + 3 < end {
                    match toks[pos + 2].token {
                        TokenView::Ident(w2) => match spec_element_type_of(w2) {
                            Some(et) => {
                                lemma_parse_body_facts(toks, pos, pos + 4, end, base, et, Some(w));
                            },
                            None => {},
                        },
                        _ => {},
                    }
                }
            },
        },
        _ => {},
    }
}

/// Facts about a successful body parse, mirroring the element facts.
pub proof fn lemma_parse_body_facts(
    toks: Seq<FatTokenView>,
    loc_pos: int,
    body_start: int,
    end: int,
    base: int,
    et: ElementType,
    name: Option<Seq<char>>,
)
    requires
        spec_parse_body(toks, loc_pos, body_start, end, base, et, name) is Ok,
    ensures
        ({
            let (els, np) = spec_parse_body(toks, loc_pos, body_start, end, base, et, name)->Ok_0;
            &&& 1 <= els.len() <= body_end(toks, body_start, end, 1) - body_start + 1
            &&& body_start <= np <= end
            &&& forall|k: int|
                0 <= k < els.len() ==> (#[trigger] els[k]).id == AbstractElementID(
                    ((base + k + 1) as u32),
                )
        }),
    decreases end - body_start + 1, 1int, 0int,
{
    let bend = body_end(toks, body_start, end, 1);
    if 0 <= body_start <= bend <= end {
        match et {
            ElementType::Centre | ElementType::Padding => {
                lemma_parse_element_facts(toks, body_start, bend, base);
                let (els, _) = spec_parse_element(toks, body_start, bend, base)->Ok_0;
                let child = AbstractElementID((base + els.len()) as u32);
                let data = if et is Centre {
                    ElementDataView::Centre(child)
                } else {
                    ElementDataView::Padding(child)
                };
                let pushed = els.push(mk_elem(data, et, name, base + els.len() + 1));
                assert forall|k: int|
                    0 <= k < pushed.len() implies (#[trigger] pushed[k]).id == AbstractElementID(
                    ((base + k + 1) as u32),
                ) by {
                    if k < els.len() {
                        assert(els[k].id == AbstractElementID(((base + k + 1) as u32)));
                    }
                }
            },
            ElementType::Row | ElementType::Col => {
                lemma_parse_children_facts(toks, body_start, bend, base);
                match spec_parse_children(toks, body_start, bend, base) {
                    Ok((els, ids)) => {
                        let data = if et is Row {
                            ElementDataView::Row(ids)
                        } else {
                            ElementDataView::Col(ids)
                        };
                        let pushed = els.push(mk_elem(data, et, name, base + els.len() + 1));
                        assert forall|k: int|
                            0 <= k < pushed.len() implies (#[trigger] pushed[k]).id
                            == AbstractElementID(((base + k + 1) as u32)) by {
                            if k < els.len() {
                                assert(els[k].id == AbstractElementID(((base + k + 1) as u32)));
                            }
                        }
                    },
                    Err(_) => {},
                }
            },
            _ => {},
        }
    }
}

/// Facts about a successful children parse: at most one element per token is
/// pushed and identifiers count up from `base + 1` in push order.
pub proof fn lemma_parse_children_facts(toks: Seq<FatTokenView>, i: int, end: int, base: int)
    requires
        spec_parse_children(toks, i, end, base) is Ok,
    ensures
        ({
            let (els, ids) = spec_parse_children(toks, i, end, base)->Ok_0;
            &&& els.len() <= if end - i >= 0 {
                end - i
            } else {
                0
            }
            &&& forall|k: int|
                0 <= k < els.len() ==> (#[trigger] els[k]).id == AbstractElementID(
                    ((base + k + 1) as u32),
                )
        }),
    decreases end - i + 1, 0int, 0int,
{
    if 0 <= i < end {
        lemma_next_comma_bounds(toks, i, end, 0);
        let b = next_comma(toks, i, end, 0);
        if b <= i {
            lemma_parse_children_facts(toks, i + 1, end, base);
        } else {
            match spec_parse_element(toks, i, b, base) {
                Ok((els, _)) => {
                    lemma_parse_element_facts(toks, i, b, base);
                    if b < end {
                        match spec_parse_children(toks, b + 1, end, base + els.len()) {
                            Ok((els2, ids2)) => {
                                lemma_parse_children_facts(toks, b + 1, end, base + els.len());
                                assert forall|k: int|
                                    0 <= k < (els + els2).len() implies (#[trigger] (els
                                    + els2)[k]).id == AbstractElementID(
                                    ((base + k + 1) as u32),
                                ) by {
                                    if k < els.len() {
                                        assert(els[k].id == AbstractElementID(
                                            ((base + k + 1) as u32),
                                        ));
                                    } else {
                                        assert(els2[k - els.len()].id == AbstractElementID(
                                            ((base + els.len() + (k - els.len()) + 1) as u32),
                                        ));
                                    }
                                }
                            },
                            Err(_) => {},
                        }
                    }
                },
                Err(_) => {},
            }
        }
    }
}

/// The style target named by a style directive's first token.
pub open spec fn spec_style_target(t: FatTokenView) -> Result<StyleTargetView, FoliumErrorView> {
    match t.token {
        TokenView::Ident(w) => match spec_element_type_of(w) {
            Some(et) => Ok(StyleTargetView::Anonymous(et)),
            None => {
                if w == "slide"@ {
                    Ok(StyleTargetView::Slide)
                } else {
                    Ok(StyleTargetView::Named(w))
                }
            },
        },
        _ => Err(
            FoliumErrorView::ExpectedReason {
                location: t.location,
                expected: Expectation::StyleTargetName,
                got: t.token,
            },
        ),
    }
}

/// Parses a style directive's properties in the window `[i, gend)`: repeated
/// `name : value` pairs separated by list separators, the last separator
/// optional. A name given twice keeps its later value.
pub open spec fn spec_parse_props(toks: Seq<FatTokenView>, i: int, gend: int) -> Result<
    Map<Seq<char>, PropertyValueView>,
    FoliumErrorView,
>
    decreases gend - i,
{
    if i < 0 || i >= gend {
        Ok(Map::empty())
    } else {
        match toks[i].token {
            TokenView::Ident(pname) => {
                if i + 1 >= gend {
                    Err(
                        FoliumErrorView::UnexpectedFileEndWithToken {
                            location: toks[i].location,
                            expected: TokenView::ValueAssignment,
                        },
                    )
                } else {
                    match toks[i + 1].token {
                        TokenView::ValueAssignment => {
                            if i + 2 >= gend {
                                Err(
                                    FoliumErrorView::UnexpectedFileEndWithReason {
                                        location: toks[i + 1].location,
                                        expected: Expectation::ParameterValue,
                                    },
                                )
                            } else {
                                match toks[i + 2].token {
                                    TokenView::Value(pv) => {
                                        if i + 3 >= gend {
                                            Ok(Map::empty().insert(pname, pv))
                                        } else {
                                            match toks[i + 3].token {
                                                TokenView::ListSeparator => match spec_parse_props(
                                                    toks,
                                                    i + 4,
                                                    gend,
                                                ) {
                                                    Ok(m) => Ok(
                                                        if m.contains_key(pname) {
                                                            m
                                                        } else {
                                                            m.insert(pname, pv)
                                                        },
                                                    ),
                                                    Err(e) => Err(e),
                                                },
                                                _ => Err(
                                                    FoliumErrorView::ExpectedToken {
                                                        location: toks[i + 3].location,
                                                        expected: TokenView::ListSeparator,
                                                        got: toks[i + 3].token,
                                                    },
                                                ),
                                            }
                                        }
                                    },
                                    _ => Err(
                                        FoliumErrorView::ExpectedReason {
                                            location: toks[i + 2].location,
                                            expected: Expectation::ParameterValue,
                                            got: toks[i + 2].token,
                                        },
                                    ),
                                }
                            }
                        },
                        _ => Err(
                            FoliumErrorView::ExpectedToken {
                                location: toks[i + 1].location,
                                expected: TokenView::ValueAssignment,
                                got: toks[i + 1].token,
                            },
                        ),
                    }
                }
            },
            _ => Err(
                FoliumErrorView::ExpectedReason {
                    location: toks[i].location,
                    expected: Expectation::StyleDirective,
                    got: toks[i].token,
                },
            ),
        }
    }
}

/// The index of the first style-block close in `[i, end)`, or `end`.
pub open spec fn next_close_params(toks: Seq<FatTokenView>, i: int, end: int) -> int
    decreases end - i,
{
    if i < 0 || i >= end {
        end
    } else if toks[i].token is ClosingParamsParen {
        i
    } else {
        next_close_params(toks, i + 1, end)
    }
}

/// The next style-block close lies between the scan start and the window end.
pub proof fn lemma_next_close_params_bounds(toks: Seq<FatTokenView>, i: int, end: int)
    requires
        0 <= i <= end,
    ensures
        i <= next_close_params(toks, i, end) <= end,
    decreases end - i,
{
    if i < end && !(toks[i].token is ClosingParamsParen) {
        lemma_next_close_params_bounds(toks, i + 1, end);
    }
}

/// Parses the style directives in `[i, end)` on top of the directives
/// already collected in `acc`: the window is split at style-block closes,
/// empty pieces are dropped, and each remaining piece is one directive —
/// target, block open, properties. A target already present is a duplicate
/// definition and fails the slide.
pub open spec fn spec_parse_styles(
    toks: Seq<FatTokenView>,
    i: int,
    end: int,
    acc: Map<StyleTargetView, Map<Seq<char>, PropertyValueView>>,
) -> Result<Map<StyleTargetView, Map<Seq<char>, PropertyValueView>>, FoliumErrorView>
    decreases end - i,
    via spec_parse_styles_dec
{
    if i < 0 || i >= end {
        Ok(acc)
    } else {
        let j = next_close_params(toks, i, end);
        if j <= i {
            spec_parse_styles(toks, i + 1, end, acc)
        } else {
            match spec_style_target(toks[i]) {
                Ok(target) => {
                    if i + 1 >= j {
                        Err(
                            FoliumErrorView::UnexpectedFileEndWithToken {
                                location: toks[i].location,
                                expected: TokenView::OpeningParamsParen,
                            },
                        )
                    } else {
                        match toks[i + 1].token {
                            TokenView::OpeningParamsParen => match spec_parse_props(
                                toks,
                                i + 2,
                                j,
                            ) {
                                Ok(props) => {
                                    if acc.contains_key(target) {
                                        Err(
                                            FoliumErrorView::DuplicateStyleDefinition {
                                                location: toks[i].location,
                                                target,
                                            },
                                        )
                                    } else {
                                        spec_parse_styles(
                                            toks,
                                            if j < end {
                                                j + 1
                                            } else {
                                                end
                                            },
                                            end,
                                            acc.insert(target, props),
                                        )
                                    }
                                },
                                Err(e) => Err(e),
                            },
                            _ => Err(
                                FoliumErrorView::ExpectedToken {
                                    location: toks[i + 1].location,
                                    expected: TokenView::OpeningParamsParen,
                                    got: toks[i + 1].token,
                                },
                            ),
                        }
                    }
                },
                Err(e) => Err(e),
            }
        }
    }
}

#[via_fn]
proof fn spec_parse_styles_dec(
    toks: Seq<FatTokenView>,
    i: int,
    end: int,
    acc: Map<StyleTargetView, Map<Seq<char>, PropertyValueView>>,
) {
    if 0 <= i <= end {
        lemma_next_close_params_bounds(toks, i, end);
    }
}

/// Splits the token stream into one piece per slide: slide openers are
/// dropped, a slide closer finishes the piece under construction, and
/// trailing tokens after the last closer belong to no slide.
pub open spec fn spec_groups_rec(
    toks: Seq<FatTokenView>,
    i: int,
    cur: Seq<FatTokenView>,
    acc: Seq<Seq<FatTokenView>>,
) -> Seq<Seq<FatTokenView>>
    decreases toks.len() - i,
{
    if i < 0 || i >= toks.len() {
        acc
    } else {
        match toks[i].token {
            TokenView::OpeningSlideParen => spec_groups_rec(toks, i + 1, cur, acc),
            TokenView::ClosingSlideParen => spec_groups_rec(toks, i + 1, Seq::empty(), acc.push(cur)),
            _ => spec_groups_rec(toks, i + 1, cur.push(toks[i]), acc),
        }
    }
}

/// The per-slide token pieces of a token stream.
pub open spec fn spec_groups(toks: Seq<FatTokenView>) -> Seq<Seq<FatTokenView>> {
    spec_groups_rec(toks, 0, Seq::empty(), Seq::empty())
}

/// Loads the slides of the remaining pieces with the arena counter at
/// `base`: each piece yields its content elements, then one slide whose
/// style map is the piece's parsed directives filled in against the global
/// defaults.
pub open spec fn spec_load_slides(groups: Seq<Seq<FatTokenView>>, gi: int, base: int) -> Result<
    (Seq<ElementView>, Seq<SlideView>),
    FoliumErrorView,
>
    decreases groups.len() - gi,
{
    if gi < 0 || gi >= groups.len() {
        Ok((Seq::empty(), Seq::empty()))
    } else {
        let g = groups[gi];
        match spec_parse_element(g, 0, g.len() as int, base) {
            Ok((els, np)) => match spec_parse_styles(g, np, g.len() as int, Map::empty()) {
                Ok(parsed) => {
                    let slide = SlideView {
                        id: AbstractElementID((base + els.len() + 1) as u32),
                        content: AbstractElementID((base + els.len()) as u32),
                        styles: spec_fill_in(parsed, spec_default_map()),
                    };
                    match spec_load_slides(groups, gi + 1, base + els.len() + 1) {
                        Ok((els2, slides2)) => Ok((els + els2, seq![slide] + slides2)),
                        Err(e) => Err(e),
                    }
                },
                Err(e) => Err(e),
            },
            Err(e) => Err(e),
        }
    }
}

/// What loading a source text does to a document whose counter stands at
/// `base`: the elements pushed and the slides appended, or the first error.
pub open spec fn spec_load(s: Seq<char>, base: int) -> Result<
    (Seq<ElementView>, Seq<SlideView>),
    FoliumErrorView,
> {
    spec_load_slides(spec_groups(crate::lexer::spec_lex(s, 0, 0, 0)), 0, base)
}


/// Scans for the exclusive end of the argument-list body starting at `i`.
fn scan_body_end(toks: &Vec<FatToken>, i: usize, end: usize) -> (r: usize)
    requires
        i <= end <= toks@.len(),
    ensures
        r == body_end(toks.deep_view(), i as int, end as int, 1),
        i <= r <= end,
{
    let ghost t = toks.deep_view();
    let mut j = i;
    let mut depth: u128 = 1;
    while j < end
        invariant
            i <= j <= end <= toks@.len(),
            t == toks.deep_view(),
            1 <= depth <= j - i + 1,
            body_end(t, i as int, end as int, 1) == body_end(t, j as int, end as int, depth as int),
        decreases end - j,
    {
        proof {
            assert(t[j as int] == toks@[j as int]@);
        }
        match &toks[j].token {
            Token::OpeningArgsParen => {
                depth = depth + 1;
            },
            Token::ClosingArgsParen => {
                if depth == 1 {
                    return j;
                }
                depth = depth - 1;
            },
            _ => {},
        }
        j = j + 1;
    }
    j
}

/// Scans for the first list separator at depth 0 in `[i, end)`.
fn scan_next_comma(toks: &Vec<FatToken>, i: usize, end: usize) -> (r: usize)
    requires
        i <= end <= toks@.len(),
    ensures
        r == next_comma(toks.deep_view(), i as int, end as int, 0),
        i <= r <= end,
{
    let ghost t = toks.deep_view();
    let mut j = i;
    let mut depth: u128 = 0;
    while j < end
        invariant
            i <= j <= end <= toks@.len(),
            t == toks.deep_view(),
            depth <= j - i,
            next_comma(t, i as int, end as int, 0) == next_comma(
                t,
                j as int,
                end as int,
                depth as int,
            ),
        decreases end - j,
    {
        proof {
            assert(t[j as int] == toks@[j as int]@);
        }
        match &toks[j].token {
            Token::OpeningArgsParen => {
                depth = depth + 1;
            },
            Token::ClosingArgsParen => {
                if depth > 0 {
                    depth = depth - 1;
                }
            },
            Token::ListSeparator => {
                if depth == 0 {
                    return j;
                }
            },
            _ => {},
        }
        j = j + 1;
    }
    j
}

/// Scans for the first style-block close in `[i, end)`.
fn scan_next_close_params(toks: &Vec<FatToken>, i: usize, end: usize) -> (r: usize)
    requires
        i <= end <= toks@.len(),
    ensures
        r == next_close_params(toks.deep_view(), i as int, end as int),
        i <= r <= end,
{
    let ghost t = toks.deep_view();
    let mut j = i;
    while j < end
        invariant
            i <= j <= end <= toks@.len(),
            t == toks.deep_view(),
            next_close_params(t, i as int, end as int) == next_close_params(
                t,
                j as int,
                end as int,
            ),
        decreases end - j,
    {
        proof {
            assert(t[j as int] == toks@[j as int]@);
        }
        match &toks[j].token {
            Token::ClosingParamsParen => {
                return j;
            },
            _ => {},
        }
        j = j + 1;
    }
    j
}

/// Parses one element definition at the front of `[pos, end)`, pushing its
/// elements into the arena; children are pushed before the parents that
/// reference them. Returns the defined element's identifier and the position
/// just past the definition — exactly what `spec_parse_element` describes,
/// for every input.
pub fn parse_content_definition(
    global: &mut GlobalState,
    toks: &Vec<FatToken>,
    pos: usize,
    end: usize,
) -> (r: Result<(AbstractElementID, usize), FoliumError>)
    requires
        old(global).wf(),
        pos <= end <= toks@.len(),
        old(global).unassigned_id + (end - pos) <= u32::MAX,
    ensures
        final(global).wf(),
        final(global).slides == old(global).slides,
        old(global).elements@.len() <= final(global).elements@.len(),
        final(global).elements@.subrange(0, old(global).elements@.len() as int) == old(
            global,
        ).elements@,
        final(global).unassigned_id - old(global).unassigned_id == final(global).elements@.len()
            - old(global).elements@.len(),
        ({
            let res = spec_parse_element(
                toks.deep_view(),
                pos as int,
                end as int,
                old(global).unassigned_id as int,
            );
            match res {
                Ok((els, np)) => {
                    &&& r is Ok
                    &&& r->Ok_0.0 == AbstractElementID(
                        (old(global).unassigned_id + els.len()) as u32,
                    )
                    &&& r->Ok_0.1 as int == np
                    &&& final(global).elements@.len() == old(global).elements@.len() + els.len()
                    &&& forall|k: int|
                        0 <= k < els.len() ==> final(global).elements@[old(
                            global,
                        ).elements@.len() + k]@ == els[k]
                },
                Err(e) => r is Err && r->Err_0@ == e,
            }
        }),
    decreases end - pos, 2int,
{
    let ghost t = toks.deep_view();
    let ghost base = old(global).unassigned_id as int;
    if pos >= end {
        return Err(
            FoliumError::UnexpectedFileEndWithReason {
                location: TokenLocation { line: 0, col: 0 },
                expected: Expectation::ContentTypeOrName,
            },
        );
    }
    proof {
        assert(t[pos as int] == toks@[pos as int]@);
    }
    match &toks[pos].token {
        Token::Ident(w) => {
            match ElementType::from_name(w.as_str()) {
                Some(et) => {
                    // a type keyword: the element is anonymous
                    if pos + 1 >= end {
                        return Err(
                            FoliumError::UnexpectedFileEndWithToken {
                                location: toks[pos].location,
                                expected: Token::OpeningArgsParen,
                            },
                        );
                    }
                    proof {
                        assert(t[pos + 1 as int] == toks@[pos + 1 as int]@);
                    }
                    match &toks[pos + 1].token {
                        Token::Definition => Err(
                            FoliumError::UseOfContentTypeName {
                                location: toks[pos + 1].location,
                                word: w.clone(),
                            },
                        ),
                        Token::OpeningArgsParen => parse_body(
                            global,
                            toks,
                            pos,
                            pos + 2,
                            end,
                            et,
                            None,
                        ),
                        other => Err(
                            FoliumError::ExpectedToken {
                                location: toks[pos + 1].location,
                                expected: Token::OpeningArgsParen,
                                got: other.clone(),
                            },
                        ),
                    }
                },
                None => {
                    // a name: `name :: type ( ... )`
                    if pos + 1 >= end {
                        return Err(
                            FoliumError::UnexpectedFileEndWithToken {
                                location: toks[pos].location,
                                expected: Token::Definition,
                            },
                        );
                    }
                    proof {
                        assert(t[pos + 1 as int] == toks@[pos + 1 as int]@);
                    }
                    match &toks[pos + 1].token {
                        Token::Definition => {
                            if pos + 2 >= end {
                                return Err(
                                    FoliumError::UnexpectedFileEndWithReason {
                                        location: toks[pos + 1].location,
                                        expected: Expectation::ContentType,
                                    },
                                );
                            }
                            proof {
                                assert(t[pos + 2 as int] == toks@[pos + 2 as int]@);
                            }
                            match &toks[pos + 2].token {
                                Token::Ident(w2) => {
                                    match ElementType::from_name(w2.as_str()) {
                                        Some(et) => {
                                            if pos + 3 >= end {
                                                return Err(
                                                    FoliumError::UnexpectedFileEndWithToken {
                                                        location: toks[pos].location,
                                                        expected: Token::OpeningArgsParen,
                                                    },
                                                );
                                            }
                                            proof {
                                                assert(t[pos + 3 as int] == toks@[pos + 3 as int]@);
                                            }
                                            match &toks[pos + 3].token {
                                                Token::OpeningArgsParen => parse_body(
                                                    global,
                                                    toks,
                                                    pos,
                                                    pos + 4,
                                                    end,
                                                    et,
                                                    Some(w.clone()),
                                                ),
                                                other => Err(
                                                    FoliumError::ExpectedToken {
                                                        location: toks[pos + 3].location,
                                                        expected: Token::OpeningArgsParen,
                                                        got: other.clone(),
                                                    },
                                                ),
                                            }
                                        },
                                        None => Err(
                                            FoliumError::UnknownType {
                                                location: toks[pos + 2].location,
                                                offending_token: w2.clone(),
                                            },
                                        ),
                                    }
                                },
                                other => Err(
                                    FoliumError::ExpectedReason {
                                        location: toks[pos + 2].location,
                                        expected: Expectation::ContentType,
                                        got: other.clone(),
                                    },
                                ),
                            }
                        },
                        other => Err(
                            FoliumError::ExpectedToken {
                                location: toks[pos + 1].location,
                                expected: Token::Definition,
                                got: other.clone(),
                            },
                        ),
                    }
                },
            }
        },
        other => Err(
            FoliumError::ExpectedReason {
                location: toks[pos].location,
                expected: Expectation::ContentTypeOrName,
                got: other.clone(),
            },
        ),
    }
}

/// Parses an element's argument-list body starting just past the opening
/// paren at `body_start`; pushes the element (and, first, its children) into
/// the arena — exactly what `spec_parse_body` describes.
#[verifier::rlimit(100)]
fn parse_body(
    global: &mut GlobalState,
    toks: &Vec<FatToken>,
    loc_pos: usize,
    body_start: usize,
    end: usize,
    et: ElementType,
    name: Option<String>,
) -> (r: Result<(AbstractElementID, usize), FoliumError>)
    requires
        old(global).wf(),
        loc_pos < end,
        body_start <= end <= toks@.len(),
        old(global).unassigned_id + (end - body_start) + 1 <= u32::MAX,
    ensures
        final(global).wf(),
        final(global).slides == old(global).slides,
        old(global).elements@.len() <= final(global).elements@.len(),
        final(global).elements@.subrange(0, old(global).elements@.len() as int) == old(
            global,
        ).elements@,
        final(global).unassigned_id - old(global).unassigned_id == final(global).elements@.len()
            - old(global).elements@.len(),
        ({
            let res = spec_parse_body(
                toks.deep_view(),
                loc_pos as int,
                body_start as int,
                end as int,
                old(global).unassigned_id as int,
                et,
                name.deep_view(),
            );
            match res {
                Ok((els, np)) => {
                    &&& r is Ok
                    &&& r->Ok_0.0 == AbstractElementID(
                        (old(global).unassigned_id + els.len()) as u32,
                    )
                    &&& r->Ok_0.1 as int == np
                    &&& final(global).elements@.len() == old(global).elements@.len() + els.len()
                    &&& forall|k: int|
                        0 <= k < els.len() ==> final(global).elements@[old(
                            global,
                        ).elements@.len() + k]@ == els[k]
                },
                Err(e) => r is Err && r->Err_0@ == e,
            }
        }),
    decreases end - body_start + 1, 1int,
{
    let ghost t = toks.deep_view();
    let ghost base = old(global).unassigned_id as int;
    let ghost namev = name.deep_view();
    let ghost old_len = old(global).elements@.len() as int;
    let bend = scan_body_end(toks, body_start, end);
    let nxt = if bend < end {
        bend + 1
    } else {
        end
    };
    match et {
        ElementType::ElNone => {
            let id = global.push_element(AbstractElementData::ElNone, et, name);
            proof {
                assert(global.elements@[old_len]@ == mk_elem(
                    ElementDataView::ElNone,
                    et,
                    namev,
                    base + 1,
                ));
                assert(global.elements@.subrange(0, old_len) =~= old(global).elements@);
            }
            Ok((id, nxt))
        },
        ElementType::Text | ElementType::Code | ElementType::Image => {
            if body_start >= bend {
                return Err(
                    FoliumError::UnexpectedFileEndWithReason {
                        location: toks[loc_pos].location,
                        expected: Expectation::StringValue,
                    },
                );
            }
            proof {
                assert(t[body_start as int] == toks@[body_start as int]@);
            }
            match &toks[body_start].token {
                Token::Value(PropertyValue::String(text)) => {
                    let data = if matches!(et, ElementType::Text) {
                        AbstractElementData::Text(text.clone())
                    } else if matches!(et, ElementType::Code) {
                        AbstractElementData::Code(text.clone())
                    } else {
                        AbstractElementData::Image(text.clone())
                    };
                    let ghost datav = data@;
                    let id = global.push_element(data, et, name);
                    proof {
                        assert(global.elements@[old_len]@ == mk_elem(datav, et, namev, base + 1));
                        assert(global.elements@.subrange(0, old_len) =~= old(global).elements@);
                    }
                    Ok((id, nxt))
                },
                other => Err(
                    FoliumError::ExpectedReason {
                        location: toks[body_start].location,
                        expected: Expectation::StringValue,
                        got: other.clone(),
                    },
                ),
            }
        },
        ElementType::Centre | ElementType::Padding => {
            let cr = parse_content_definition(global, toks, body_start, bend);
            match cr {
                Ok((cid, _)) => {
                    proof {
                        lemma_parse_element_facts(t, body_start as int, bend as int, base);
                        let (els, _) = spec_parse_element(
                            t,
                            body_start as int,
                            bend as int,
                            base,
                        )->Ok_0;
                        assert(global.elements@[old_len + els.len() - 1]@ == els[els.len() - 1]);
                        assert(els[els.len() - 1].id == cid);
                        assert((#[trigger] global.elements@[old_len + els.len() - 1]).id == cid);
                        assert(spec_has_id(global.elements@, cid));
                    }
                    let data = if matches!(et, ElementType::Centre) {
                        AbstractElementData::Centre(cid)
                    } else {
                        AbstractElementData::Padding(cid)
                    };
                    let ghost datav = data@;
                    let ghost mid = *global;
                    proof {
                        assert(elem_children(datav) =~= seq![cid]);
                    }
                    let id = global.push_element(data, et, name);
                    proof {
                        let (els, _) = spec_parse_element(
                            t,
                            body_start as int,
                            bend as int,
                            base,
                        )->Ok_0;
                        let all = els.push(mk_elem(datav, et, namev, base + els.len() + 1));
                        assert(global.elements@.len() == old_len + all.len());
                        assert forall|k: int|
                            0 <= k < all.len() implies global.elements@[old_len + k]@ == all[k] by {
                            if k < els.len() {
                                assert(mid.elements@[old_len + k]@ == els[k]);
                                assert(global.elements@[old_len + k] == mid.elements@[old_len + k]);
                            }
                        }
                        assert(global.elements@.subrange(0, old_len) =~= old(global).elements@);
                    }
                    Ok((id, nxt))
                },
                Err(e) => Err(e),
            }
        },
        ElementType::Row | ElementType::Col => {
            let mut ids: Vec<AbstractElementID> = Vec::new();
            let mut i = body_start;
            let ghost mut done: Seq<ElementView> = Seq::empty();
            proof {
                assert(done + Seq::<ElementView>::empty() =~= done);
                assert(ids@ + Seq::<AbstractElementID>::empty() =~= ids@);
            }
            while i < bend
                invariant
                    global.wf(),
                    body_start <= i <= bend <= end <= toks@.len(),
                    t == toks.deep_view(),
                    body_end(t, body_start as int, end as int, 1) == bend as int,
                    et is Row || et is Col,
                    namev == name.deep_view(),
                    loc_pos < end,
                    global.slides == old(global).slides,
                    global.elements@.len() == old_len + done.len(),
                    old_len == old(global).elements@.len(),
                    global.elements@.subrange(0, old_len as int) == old(global).elements@,
                    global.unassigned_id == base + done.len(),
                    base == old(global).unassigned_id,
                    global.unassigned_id + (bend - i) + 1 <= u32::MAX,
                    forall|k: int|
                        0 <= k < done.len() ==> (#[trigger] global.elements@[old_len + k])@
                            == done[k],
                    ids@.len() <= done.len(),
                    forall|k: int|
                        0 <= k < ids@.len() ==> spec_has_id(global.elements@, #[trigger] ids@[k]),
                    ({
                        let whole = spec_parse_children(t, body_start as int, bend as int, base);
                        match spec_parse_children(t, i as int, bend as int, base + done.len()) {
                            Ok((e2, i2)) => whole == Ok::<_, FoliumErrorView>(
                                (done + e2, ids@ + i2),
                            ),
                            Err(e) => whole == Err::<
                                (Seq<ElementView>, Seq<AbstractElementID>),
                                _,
                            >(e),
                        }
                    }),
                decreases bend - i,
            {
                let ghost un0 = global.unassigned_id as int;
                let b = scan_next_comma(toks, i, bend);
                if b == i {
                    proof {
                        assert(t[i as int] == toks@[i as int]@);
                        assert(spec_parse_children(t, i as int, bend as int, un0)
                            == spec_parse_children(t, i + 1 as int, bend as int, un0));
                    }
                    i = i + 1;
                } else {
                    let ghost g_pre = *global;
                    let cr = parse_content_definition(global, toks, i, b);
                    match cr {
                        Ok((cid, _)) => {
                            proof {
                                lemma_parse_element_facts(t, i as int, b as int, un0);
                            }
                            let ghost els1 = spec_parse_element(
                                t,
                                i as int,
                                b as int,
                                un0,
                            )->Ok_0.0;
                            let ghost done0 = done;
                            let ghost ids0 = ids@;
                            ids.push(cid);
                            proof {
                                done = done0 + els1;
                                assert forall|k: int|
                                    0 <= k < done.len() implies (#[trigger] global.elements@[old_len
                                    + k])@ == done[k] by {
                                    if k < done0.len() {
                                        assert(g_pre.elements@[old_len + k]@ == done0[k]);
                                        assert(global.elements@.subrange(
                                            0,
                                            g_pre.elements@.len() as int,
                                        )[old_len + k] == global.elements@[old_len + k]);
                                    } else {
                                        assert(global.elements@[g_pre.elements@.len() + (k
                                            - done0.len())]@ == els1[k - done0.len()]);
                                    }
                                }
                                assert(els1[els1.len() - 1].id == cid);
                                assert(global.elements@[old_len + done.len() - 1]@ == done[done.len()
                                    - 1]);
                                assert forall|k: int|
                                    0 <= k < ids@.len() implies spec_has_id(
                                    global.elements@,
                                    #[trigger] ids@[k],
                                ) by {
                                    if k < ids0.len() {
                                        assert(ids@[k] == ids0[k]);
                                        assert(spec_has_id(g_pre.elements@, ids0[k]));
                                        let j = choose|j: int|
                                            0 <= j < g_pre.elements@.len() && (
                                            #[trigger] g_pre.elements@[j]).id == ids0[k];
                                        assert(global.elements@.subrange(
                                            0,
                                            g_pre.elements@.len() as int,
                                        )[j] == global.elements@[j]);
                                        assert((#[trigger] global.elements@[j]).id == ids0[k]);
                                    } else {
                                        assert((#[trigger] global.elements@[old_len + done.len()
                                            - 1]).id == cid);
                                    }
                                }
                            }
                            if b >= bend {
                                proof {
                                    assert(spec_parse_children(t, i as int, bend as int, un0)
                                        == Ok::<_, FoliumErrorView>((els1, seq![cid])));
                                    assert(done0 + els1 =~= done);
                                    assert(ids0 + seq![cid] =~= ids@);
                                    assert(spec_parse_children(
                                        t,
                                        bend as int,
                                        bend as int,
                                        base + done.len(),
                                    ) == Ok::<_, FoliumErrorView>(
                                        (Seq::<ElementView>::empty(), Seq::<
                                            AbstractElementID,
                                        >::empty()),
                                    ));
                                    assert(done + Seq::<ElementView>::empty() =~= done);
                                    assert(ids@ + Seq::<AbstractElementID>::empty() =~= ids@);
                                }
                                i = bend;
                            } else {
                                proof {
                                    let un1 = un0 + els1.len();
                                    let rest = spec_parse_children(
                                        t,
                                        b + 1 as int,
                                        bend as int,
                                        un1,
                                    );
                                    match rest {
                                        Ok((e2, i2)) => {
                                            assert(spec_parse_children(
                                                t,
                                                i as int,
                                                bend as int,
                                                un0,
                                            ) == Ok::<_, FoliumErrorView>(
                                                (els1 + e2, seq![cid] + i2),
                                            ));
                                            assert(done0 + (els1 + e2) =~= done + e2);
                                            assert(ids0 + (seq![cid] + i2) =~= ids@ + i2);
                                        },
                                        Err(e) => {
                                            assert(spec_parse_children(
                                                t,
                                                i as int,
                                                bend as int,
                                                un0,
                                            ) == Err::<
                                                (Seq<ElementView>, Seq<AbstractElementID>),
                                                _,
                                            >(e));
                                        },
                                    }
                                }
                                i = b + 1;
                            }
                        },
                        Err(e) => {
                            proof {
                                assert(spec_parse_children(t, i as int, bend as int, un0)
                                    == Err::<(Seq<ElementView>, Seq<AbstractElementID>), _>(e@));
                                assert forall|k: int|
                                    0 <= k < old_len implies #[trigger] global.elements@[k] == old(
                                    global,
                                ).elements@[k] by {
                                    assert(global.elements@.subrange(
                                        0,
                                        g_pre.elements@.len() as int,
                                    )[k] == global.elements@[k]);
                                    assert(g_pre.elements@.subrange(0, old_len as int)[k]
                                        == g_pre.elements@[k]);
                                }
                                assert(global.elements@.subrange(0, old_len as int) =~= old(
                                    global,
                                ).elements@);
                                assert(spec_parse_children(t, body_start as int, bend as int, base)
                                    == Err::<(Seq<ElementView>, Seq<AbstractElementID>), _>(e@));
                                assert(spec_parse_body(
                                    t,
                                    loc_pos as int,
                                    body_start as int,
                                    end as int,
                                    base,
                                    et,
                                    namev,
                                ) == Err::<(Seq<ElementView>, int), FoliumErrorView>(e@));
                            }
                            return Err(e);
                        },
                    }
                }
            }
            let ghost idsv = ids@;
            let data = if matches!(et, ElementType::Row) {
                AbstractElementData::Row(ids)
            } else {
                AbstractElementData::Col(ids)
            };
            let ghost datav = data@;
            let ghost mid = *global;
            proof {
                assert(elem_children(datav) =~= idsv);
            }
            let id = global.push_element(data, et, name);
            proof {
                let whole = spec_parse_children(t, body_start as int, bend as int, base);
                assert(spec_parse_children(t, bend as int, bend as int, base + done.len())
                    == Ok::<_, FoliumErrorView>(
                    (Seq::<ElementView>::empty(), Seq::<AbstractElementID>::empty()),
                ));
                assert(done + Seq::<ElementView>::empty() =~= done);
                assert(idsv + Seq::<AbstractElementID>::empty() =~= idsv);
                assert(whole == Ok::<_, FoliumErrorView>((done, idsv)));
                let all = done.push(mk_elem(datav, et, namev, base + done.len() + 1));
                assert(global.elements@.len() == old_len + all.len());
                assert forall|k: int|
                    0 <= k < all.len() implies global.elements@[old_len + k]@ == all[k] by {
                    if k < done.len() {
                        assert(mid.elements@[old_len + k]@ == done[k]);
                        assert(global.elements@[old_len + k] == mid.elements@[old_len + k]);
                    }
                }
                assert(global.elements@.subrange(0, old_len as int) =~= old(global).elements@);
            }
            Ok((id, nxt))
        },
    }
}


/// Parses a style directive's properties — exactly what `spec_parse_props`
/// describes.
fn parse_props(toks: &Vec<FatToken>, pos: usize, gend: usize) -> (r: Result<
    PropertySet,
    FoliumError,
>)
    requires
        pos <= gend <= toks@.len(),
    ensures
        ({
            let res = spec_parse_props(toks.deep_view(), pos as int, gend as int);
            match res {
                Ok(m) => r is Ok && r->Ok_0@ == m && r->Ok_0.wf(),
                Err(e) => r is Err && r->Err_0@ == e,
            }
        }),
{
    let ghost t = toks.deep_view();
    let mut ps = PropertySet::new();
    let mut i = pos;
    proof {
        match spec_parse_props(t, pos as int, gend as int) {
            Ok(m) => {
                assert(crate::style::spec_merge_props(m, ps@) =~= m);
            },
            Err(_) => {},
        }
    }
    while i < gend
        invariant
            pos <= i <= gend <= toks@.len(),
            t == toks.deep_view(),
            ps.wf(),
            ({
                match spec_parse_props(t, i as int, gend as int) {
                    Ok(m) => spec_parse_props(t, pos as int, gend as int) == Ok::<
                        _,
                        FoliumErrorView,
                    >(crate::style::spec_merge_props(m, ps@)),
                    Err(e) => spec_parse_props(t, pos as int, gend as int) == Err::<
                        Map<Seq<char>, PropertyValueView>,
                        _,
                    >(e),
                }
            }),
        decreases gend - i,
    {
        proof {
            assert(t[i as int] == toks@[i as int]@);
        }
        match &toks[i].token {
            Token::Ident(pname) => {
                if i + 1 >= gend {
                    return Err(
                        FoliumError::UnexpectedFileEndWithToken {
                            location: toks[i].location,
                            expected: Token::ValueAssignment,
                        },
                    );
                }
                proof {
                    assert(t[i + 1 as int] == toks@[i + 1 as int]@);
                }
                match &toks[i + 1].token {
                    Token::ValueAssignment => {
                        if i + 2 >= gend {
                            return Err(
                                FoliumError::UnexpectedFileEndWithReason {
                                    location: toks[i + 1].location,
                                    expected: Expectation::ParameterValue,
                                },
                            );
                        }
                        proof {
                            assert(t[i + 2 as int] == toks@[i + 2 as int]@);
                        }
                        match &toks[i + 2].token {
                            Token::Value(pv) => {
                                let ghost ps0 = ps@;
                                let ghost pnv = pname@;
                                let ghost pvv = pv@;
                                ps.insert(pname.clone(), pv.clone());
                                if i + 3 >= gend {
                                    proof {
                                        assert(spec_parse_props(t, i as int, gend as int) == Ok::<
                                            _,
                                            FoliumErrorView,
                                        >(Map::empty().insert(pnv, pvv)));
                                        assert(crate::style::spec_merge_props(
                                            Map::empty().insert(pnv, pvv),
                                            ps0,
                                        ) =~= ps0.insert(pnv, pvv));
                                        assert(spec_parse_props(t, gend as int, gend as int)
                                            == Ok::<_, FoliumErrorView>(
                                            Map::<Seq<char>, PropertyValueView>::empty(),
                                        ));
                                        assert(crate::style::spec_merge_props(
                                            Map::<Seq<char>, PropertyValueView>::empty(),
                                            ps0.insert(pnv, pvv),
                                        ) =~= ps0.insert(pnv, pvv));
                                    }
                                    i = gend;
                                } else {
                                    proof {
                                        assert(t[i + 3 as int] == toks@[i + 3 as int]@);
                                    }
                                    match &toks[i + 3].token {
                                        Token::ListSeparator => {
                                            proof {
                                                match spec_parse_props(
                                                    t,
                                                    i + 4 as int,
                                                    gend as int,
                                                ) {
                                                    Ok(m2) => {
                                                        let lhs = crate::style::spec_merge_props(
                                                            if m2.contains_key(pnv) {
                                                                m2
                                                            } else {
                                                                m2.insert(pnv, pvv)
                                                            },
                                                            ps0,
                                                        );
                                                        let rhs = crate::style::spec_merge_props(
                                                            m2,
                                                            ps0.insert(pnv, pvv),
                                                        );
                                                        assert(lhs =~= rhs);
                                                    },
                                                    Err(_) => {},
                                                }
                                            }
                                            i = i + 4;
                                        },
                                        other => {
                                            return Err(
                                                FoliumError::ExpectedToken {
                                                    location: toks[i + 3].location,
                                                    expected: Token::ListSeparator,
                                                    got: other.clone(),
                                                },
                                            );
                                        },
                                    }
                                }
                            },
                            other => {
                                return Err(
                                    FoliumError::ExpectedReason {
                                        location: toks[i + 2].location,
                                        expected: Expectation::ParameterValue,
                                        got: other.clone(),
                                    },
                                );
                            },
                        }
                    },
                    other => {
                        return Err(
                            FoliumError::ExpectedToken {
                                location: toks[i + 1].location,
                                expected: Token::ValueAssignment,
                                got: other.clone(),
                            },
                        );
                    },
                }
            },
            other => {
                return Err(
                    FoliumError::ExpectedReason {
                        location: toks[i].location,
                        expected: Expectation::StyleDirective,
                        got: other.clone(),
                    },
                );
            },
        }
    }
    proof {
        assert(spec_parse_props(t, gend as int, gend as int) == Ok::<_, FoliumErrorView>(
            Map::<Seq<char>, PropertyValueView>::empty(),
        ));
        assert(crate::style::spec_merge_props(
            Map::<Seq<char>, PropertyValueView>::empty(),
            ps@,
        ) =~= ps@);
    }
    Ok(ps)
}

/// Parses the style directives that trail a slide's content definition and
/// returns the raw style map, before defaults are filled in — exactly what
/// `spec_parse_styles` describes, started from an empty map.
fn parse_styles(toks: &Vec<FatToken>, pos: usize, end: usize) -> (r: Result<StyleMap, FoliumError>)
    requires
        pos <= end <= toks@.len(),
    ensures
        ({
            let res = spec_parse_styles(
                toks.deep_view(),
                pos as int,
                end as int,
                Map::empty(),
            );
            match res {
                Ok(m) => r is Ok && r->Ok_0@ == m && r->Ok_0.wf(),
                Err(e) => r is Err && r->Err_0@ == e,
            }
        }),
{
    let ghost t = toks.deep_view();
    let mut sm = StyleMap::new();
    let mut i = pos;
    while i < end
        invariant
            pos <= i <= end <= toks@.len(),
            t == toks.deep_view(),
            sm.wf(),
            spec_parse_styles(t, pos as int, end as int, Map::empty()) == spec_parse_styles(
                t,
                i as int,
                end as int,
                sm@,
            ),
        decreases end - i,
    {
        let j = scan_next_close_params(toks, i, end);
        if j == i {
            proof {
                assert(t[i as int] == toks@[i as int]@);
            }
            i = i + 1;
        } else {
            proof {
                assert(t[i as int] == toks@[i as int]@);
            }
            match &toks[i].token {
                Token::Ident(w) => {
                    let target = match ElementType::from_name(w.as_str()) {
                        Some(et) => StyleTarget::Anonymous(et),
                        None => {
                            if crate::text::str_eq(w.as_str(), "slide") {
                                StyleTarget::Slide
                            } else {
                                StyleTarget::Named(w.clone())
                            }
                        },
                    };
                    proof {
                        assert(spec_style_target(t[i as int]) == Ok::<
                            StyleTargetView,
                            FoliumErrorView,
                        >(target@));
                    }
                    if i + 1 >= j {
                        return Err(
                            FoliumError::UnexpectedFileEndWithToken {
                                location: toks[i].location,
                                expected: Token::OpeningParamsParen,
                            },
                        );
                    }
                    proof {
                        assert(t[i + 1 as int] == toks@[i + 1 as int]@);
                    }
                    match &toks[i + 1].token {
                        Token::OpeningParamsParen => {
                            match parse_props(toks, i + 2, j) {
                                Ok(props) => {
                                    if sm.contains_target(&target) {
                                        return Err(
                                            FoliumError::DuplicateStyleDefinition {
                                                location: toks[i].location,
                                                target,
                                            },
                                        );
                                    }
                                    sm.add_style(target, props);
                                    i = if j < end {
                                        j + 1
                                    } else {
                                        end
                                    };
                                },
                                Err(e) => {
                                    return Err(e);
                                },
                            }
                        },
                        other => {
                            return Err(
                                FoliumError::ExpectedToken {
                                    location: toks[i + 1].location,
                                    expected: Token::OpeningParamsParen,
                                    got: other.clone(),
                                },
                            );
                        },
                    }
                },
                other => {
                    return Err(
                        FoliumError::ExpectedReason {
                            location: toks[i].location,
                            expected: Expectation::StyleTargetName,
                            got: other.clone(),
                        },
                    );
                },
            }
        }
    }
    Ok(sm)
}

/// The identifier budget of the slide pieces: each piece spends one
/// identifier per element plus one for its slide, and a piece can never
/// spend more than its token count plus one.
pub open spec fn groups_budget(gs: Seq<Seq<FatTokenView>>) -> int
    decreases gs.len(),
{
    if gs.len() == 0 {
        0
    } else {
        gs[0].len() + 1 + groups_budget(gs.drop_first())
    }
}

/// The identifier budget is never negative.
proof fn lemma_groups_budget_nonneg(gs: Seq<Seq<FatTokenView>>)
    ensures
        groups_budget(gs) >= 0,
    decreases gs.len(),
{
    if gs.len() > 0 {
        lemma_groups_budget_nonneg(gs.drop_first());
    }
}

/// Appending a piece adds its token count plus one to the budget.
proof fn lemma_groups_budget_snoc(gs: Seq<Seq<FatTokenView>>, g: Seq<FatTokenView>)
    ensures
        groups_budget(gs.push(g)) == groups_budget(gs) + g.len() + 1,
    decreases gs.len(),
{
    assert(groups_budget(Seq::<Seq<FatTokenView>>::empty()) == 0);
    if gs.len() == 0 {
        assert(gs.push(g)[0] == g);
        assert(gs.push(g).drop_first() =~= Seq::<Seq<FatTokenView>>::empty());
        assert(groups_budget(gs.push(g).drop_first()) == 0);
    } else {
        assert(gs.push(g)[0] == gs[0]);
        assert(gs.push(g).drop_first() =~= gs.drop_first().push(g));
        lemma_groups_budget_snoc(gs.drop_first(), g);
    }
}

/// Splits the token stream into one piece per slide — exactly what
/// `spec_groups` describes.
fn group_slides(toks: &Vec<FatToken>) -> (r: Vec<Vec<FatToken>>)
    ensures
        r.deep_view() == spec_groups(toks.deep_view()),
        groups_budget(r.deep_view()) <= toks@.len(),
{
    let ghost t = toks.deep_view();
    let mut acc: Vec<Vec<FatToken>> = Vec::new();
    let mut cur: Vec<FatToken> = Vec::new();
    let mut i: usize = 0;
    proof {
        assert(cur.deep_view() =~= Seq::<FatTokenView>::empty());
        assert(acc.deep_view() =~= Seq::<Seq<FatTokenView>>::empty());
        assert(groups_budget(acc.deep_view()) == 0);
    }
    while i < toks.len()
        invariant
            0 <= i <= toks@.len(),
            t == toks.deep_view(),
            spec_groups(t) == spec_groups_rec(t, i as int, cur.deep_view(), acc.deep_view()),
            groups_budget(acc.deep_view()) + cur.deep_view().len() <= i,
        decreases toks@.len() - i,
    {
        proof {
            assert(t[i as int] == toks@[i as int]@);
        }
        match &toks[i].token {
            Token::OpeningSlideParen => {},
            Token::ClosingSlideParen => {
                let ghost acc0 = acc.deep_view();
                let ghost cur0 = cur.deep_view();
                acc.push(cur);
                cur = Vec::new();
                proof {
                    assert(acc.deep_view() =~= acc0.push(cur0));
                    lemma_groups_budget_snoc(acc0, cur0);
                    assert(cur.deep_view() =~= Seq::<FatTokenView>::empty());
                }
            },
            _ => {
                let ghost cur0 = cur.deep_view();
                cur.push(toks[i].clone());
                proof {
                    assert(cur.deep_view() =~= cur0.push(t[i as int]));
                }
            },
        }
        i = i + 1;
    }
    proof {
        assert(spec_groups_rec(t, i as int, cur.deep_view(), acc.deep_view()) == acc.deep_view());
    }
    acc
}


/// Loads slide source text into the document: lexes the whole text, splits
/// the tokens into one piece per slide, and for each piece parses the
/// content tree and resolves the trailing style directives against the
/// global defaults — exactly what `spec_load` describes. On the first error
/// the load stops and returns it; elements and slides already built stay in
/// the arena, which remains well formed, but no further slide is added.
#[verifier::rlimit(100)]
pub fn load(global: &mut GlobalState, source: String) -> (r: Result<(), FoliumError>)
    requires
        old(global).wf(),
        old(global).unassigned_id + source@.len() <= u32::MAX,
    ensures
        final(global).wf(),
        old(global).elements@.len() <= final(global).elements@.len(),
        final(global).elements@.subrange(0, old(global).elements@.len() as int) == old(
            global,
        ).elements@,
        old(global).slides@.len() <= final(global).slides@.len(),
        final(global).slides@.subrange(0, old(global).slides@.len() as int) == old(global).slides@,
        ({
            let res = spec_load(source@, old(global).unassigned_id as int);
            match res {
                Ok((els, slides)) => {
                    &&& r is Ok
                    &&& final(global).elements@.len() == old(global).elements@.len() + els.len()
                    &&& forall|k: int|
                        0 <= k < els.len() ==> final(global).elements@[old(
                            global,
                        ).elements@.len() + k]@ == els[k]
                    &&& final(global).slides@.len() == old(global).slides@.len() + slides.len()
                    &&& forall|k: int|
                        0 <= k < slides.len() ==> final(global).slides@[old(
                            global,
                        ).slides@.len() + k]@ == slides[k]
                    &&& final(global).unassigned_id == old(global).unassigned_id + els.len()
                        + slides.len()
                },
                Err(e) => r is Err && r->Err_0@ == e,
            }
        }),
        (old(global).unassigned_id == 0 && r is Ok && final(global).elements@.len() > 0)
            ==> final(global).elements@[0].id.0 == 1,
{
    let ghost base0 = old(global).unassigned_id as int;
    let ghost old_len = old(global).elements@.len() as int;
    let ghost old_slen = old(global).slides@.len() as int;
    proof {
        if old(global).unassigned_id == 0 && old(global).elements@.len() > 0 {
            assert(1 <= old(global).elements@[0].id.0 <= 0);
        }
    }
    let toks = lex(source.as_str());
    let groups = group_slides(&toks);
    let ghost gv = groups.deep_view();
    let mut gi: usize = 0;
    let ghost mut done_els: Seq<ElementView> = Seq::empty();
    let ghost mut done_slides: Seq<SlideView> = Seq::empty();
    proof {
        assert(gv.skip(0) =~= gv);
        match spec_load_slides(gv, 0, base0) {
            Ok((e2, s2)) => {
                assert(done_els + e2 =~= e2);
                assert(done_slides + s2 =~= s2);
            },
            Err(_) => {},
        }
    }
    while gi < groups.len()
        invariant
            global.wf(),
            0 <= gi <= gv.len(),
            gv == groups.deep_view(),
            gv == spec_groups(crate::lexer::spec_lex(source@, 0, 0, 0)),
            base0 == old(global).unassigned_id,
            old_len == old(global).elements@.len(),
            old_slen == old(global).slides@.len(),
            base0 == 0 ==> old_len == 0,
            global.elements@.len() == old_len + done_els.len(),
            global.slides@.len() == old_slen + done_slides.len(),
            global.elements@.subrange(0, old_len as int) == old(global).elements@,
            global.slides@.subrange(0, old_slen as int) == old(global).slides@,
            global.unassigned_id == base0 + done_els.len() + done_slides.len(),
            global.unassigned_id + groups_budget(gv.skip(gi as int)) <= u32::MAX,
            done_els.len() == 0 ==> done_slides.len() == 0,
            forall|k: int|
                0 <= k < done_els.len() ==> (#[trigger] global.elements@[old_len + k])@
                    == done_els[k],
            forall|k: int|
                0 <= k < done_slides.len() ==> (#[trigger] global.slides@[old_slen + k])@
                    == done_slides[k],
            (base0 == 0 && global.elements@.len() > 0) ==> global.elements@[0].id.0 == 1,
            ({
                let whole = spec_load_slides(gv, 0, base0);
                match spec_load_slides(gv, gi as int, global.unassigned_id as int) {
                    Ok((e2, s2)) => whole == Ok::<_, FoliumErrorView>(
                        (done_els + e2, done_slides + s2),
                    ),
                    Err(e) => whole == Err::<(Seq<ElementView>, Seq<SlideView>), _>(e),
                }
            }),
        decreases gv.len() - gi,
    {
        let g = &groups[gi];
        let glen = g.len();
        proof {
            assert(g.deep_view() == gv[gi as int]);
            assert(gv.skip(gi as int)[0] == gv[gi as int]);
            assert(gv.skip(gi as int).drop_first() =~= gv.skip(gi as int + 1));
            assert(groups_budget(gv.skip(gi as int)) == gv[gi as int].len() + 1 + groups_budget(
                gv.skip(gi as int + 1),
            ));
            lemma_groups_budget_nonneg(gv.skip(gi as int + 1));
        }
        let ghost un_g = global.unassigned_id as int;
        let ghost g_pre = *global;
        let cr = parse_content_definition(global, g, 0, glen);
        proof {
            assert forall|k: int|
                0 <= k < g_pre.elements@.len() implies #[trigger] global.elements@[k]
                == g_pre.elements@[k] by {
                assert(global.elements@.subrange(0, g_pre.elements@.len() as int)[k]
                    == global.elements@[k]);
            }
            assert(global.elements@.subrange(0, old_len as int) =~= old(global).elements@);
        }
        match cr {
            Err(e) => {
                proof {
                    assert(spec_load_slides(gv, gi as int, un_g) == Err::<
                        (Seq<ElementView>, Seq<SlideView>),
                        _,
                    >(e@));
                }
                return Err(e);
            },
            Ok((root, np)) => {
                proof {
                    lemma_parse_element_facts(gv[gi as int], 0, glen as int, un_g);
                }
                let ghost els_g = spec_parse_element(gv[gi as int], 0, glen as int, un_g)->Ok_0.0;
                let sr = parse_styles(g, np, glen);
                match sr {
                    Err(e) => {
                        proof {
                            assert(spec_load_slides(gv, gi as int, un_g) == Err::<
                                (Seq<ElementView>, Seq<SlideView>),
                                _,
                            >(e@));
                        }
                        return Err(e);
                    },
                    Ok(parsed) => {
                        let mut style_map = parsed;
                        style_map.fill_in(StyleMap::default());
                        let slide = Slide::new(global, root, style_map);
                        let ghost slidev = slide@;
                        global.push_slide(slide);
                        let ghost done_els0 = done_els;
                        let ghost done_slides0 = done_slides;
                        proof {
                            done_els = done_els0 + els_g;
                            done_slides = done_slides0.push(slidev);
                            assert(global.slides@.subrange(0, old_slen as int) =~= old(
                                global,
                            ).slides@);
                            assert forall|k: int|
                                0 <= k < done_els.len() implies (
                            #[trigger] global.elements@[old_len + k])@ == done_els[k] by {
                                if k < done_els0.len() {
                                    assert(g_pre.elements@[old_len + k]@ == done_els0[k]);
                                    assert(global.elements@[old_len + k] == g_pre.elements@[old_len
                                        + k]);
                                } else {
                                    assert(global.elements@[g_pre.elements@.len() + (k
                                        - done_els0.len())]@ == els_g[k - done_els0.len()]);
                                }
                            }
                            assert forall|k: int|
                                0 <= k < done_slides.len() implies (
                            #[trigger] global.slides@[old_slen + k])@ == done_slides[k] by {
                                if k < done_slides0.len() {
                                    assert(g_pre.slides@[old_slen + k]@ == done_slides0[k]);
                                }
                            }
                            if base0 == 0 && global.elements@.len() > 0 {
                                if done_els0.len() == 0 {
                                    assert(un_g == 0);
                                    assert(els_g[0].id == AbstractElementID(1));
                                    assert(global.elements@[old_len + 0]@ == els_g[0]);
                                    assert(global.elements@[0].id.0 == 1);
                                } else {
                                    assert(g_pre.elements@[0].id.0 == 1);
                                    assert(global.elements@[0] == g_pre.elements@[0]);
                                }
                            }
                            let whole = spec_load_slides(gv, 0, base0);
                            let rest = spec_load_slides(
                                gv,
                                gi as int + 1,
                                un_g + els_g.len() + 1,
                            );
                            assert(spec_parse_styles(
                                gv[gi as int],
                                np as int,
                                glen as int,
                                Map::empty(),
                            ) is Ok);
                            match rest {
                                Ok((e3, s3)) => {
                                    assert(spec_load_slides(gv, gi as int, un_g) == Ok::<
                                        _,
                                        FoliumErrorView,
                                    >((els_g + e3, seq![slidev] + s3)));
                                    assert(done_els0 + (els_g + e3) =~= done_els + e3);
                                    assert(done_slides0 + (seq![slidev] + s3) =~= done_slides
                                        + s3);
                                },
                                Err(e3) => {
                                    assert(spec_load_slides(gv, gi as int, un_g) == Err::<
                                        (Seq<ElementView>, Seq<SlideView>),
                                        _,
                                    >(e3));
                                },
                            }
                        }
                    },
                }
            },
        }
        gi = gi + 1;
    }
    proof {
        assert(gv.skip(gv.len() as int) =~= Seq::<Seq<FatTokenView>>::empty());
        assert(spec_load_slides(gv, gv.len() as int, global.unassigned_id as int) == Ok::<
            _,
            FoliumErrorView,
        >((Seq::<ElementView>::empty(), Seq::<SlideView>::empty())));
        assert(done_els + Seq::<ElementView>::empty() =~= done_els);
        assert(done_slides + Seq::<SlideView>::empty() =~= done_slides);
    }
    Ok(())
}

} // verus!
