//! A scanner for the legacy configuration and server-directory documents.
//!
//! The documents are an XML-like markup of which the protocol uses only one
//! shape: start tags carrying quoted attributes. The scanner walks the raw
//! bytes and yields every start tag with its attributes, in document order;
//! declarations, comments, closing tags and text are passed over. Values are
//! taken literally, with no entity rewriting.

use vstd::prelude::*;

verus! {

/// The byte value of the opening angle bracket.
pub const LT: u8 = 60;

/// The byte value of the closing angle bracket.
pub const GT: u8 = 62;

/// One attribute of a start tag: its name and its quoted value.
pub struct Attr {
    pub name: Vec<u8>,
    pub value: Vec<u8>,
}

/// One start tag: its name and its attributes in written order.
pub struct Element {
    pub name: Vec<u8>,
    pub attrs: Vec<Attr>,
}

/// The mathematical image of an attribute.
pub ghost struct SpecAttr {
    pub name: Seq<u8>,
    pub value: Seq<u8>,
}

/// The mathematical image of a start tag.
pub ghost struct SpecElem {
    pub name: Seq<u8>,
    pub attrs: Seq<SpecAttr>,
}

/// The image of an executable attribute.
pub open spec fn attr_view(a: Attr) -> SpecAttr {
    SpecAttr { name: a.name@, value: a.value@ }
}

/// The images of a run of attributes.
pub open spec fn attrs_view(v: Seq<Attr>) -> Seq<SpecAttr> {
    v.map_values(|a: Attr| attr_view(a))
}

/// The image of an executable element.
pub open spec fn elem_view(e: Element) -> SpecElem {
    SpecElem { name: e.name@, attrs: attrs_view(e.attrs@) }
}

/// The images of a run of elements.
pub open spec fn elems_view(v: Seq<Element>) -> Seq<SpecElem> {
    v.map_values(|e: Element| elem_view(e))
}

/// Whether a byte may stand in a tag or attribute name.
pub open spec fn is_name_byte(b: u8) -> bool {
    (48 <= b <= 57) || (65 <= b <= 90) || (97 <= b <= 122) || b == 45 || b == 95 || b == 58 || b
        == 46
}

/// Whether a byte is markup whitespace.
pub open spec fn is_space_byte(b: u8) -> bool {
    b == 32 || b == 9 || b == 10 || b == 13
}

/// The first position at or after `i` holding `b`, else the document's end.
pub open spec fn spec_skip_until(doc: Seq<u8>, i: int, b: u8) -> int
    decreases doc.len() - i,
{
    if i < 0 {
        0
    } else if i >= doc.len() {
        doc.len() as int
    } else if doc[i] == b {
        i
    } else {
        spec_skip_until(doc, i + 1, b)
    }
}

/// What `spec_skip_until` lands on.
pub proof fn lemma_skip_until(doc: Seq<u8>, i: int, b: u8)
    requires
        0 <= i <= doc.len(),
    ensures
        i <= spec_skip_until(doc, i, b) <= doc.len(),
        spec_skip_until(doc, i, b) < doc.len() ==> doc[spec_skip_until(doc, i, b)] == b,
        forall|j: int| i <= j < spec_skip_until(doc, i, b) ==> doc[j] != b,
    decreases doc.len() - i,
{
    if i < doc.len() && doc[i] != b {
        lemma_skip_until(doc, i + 1, b);
    }
}

/// The first position at or after `i` holding no whitespace byte.
pub open spec fn spec_skip_spaces(doc: Seq<u8>, i: int) -> int
    decreases doc.len() - i,
{
    if i < 0 {
        0
    } else if i >= doc.len() {
        doc.len() as int
    } else if is_space_byte(doc[i]) {
        spec_skip_spaces(doc, i + 1)
    } else {
        i
    }
}

/// What `spec_skip_spaces` lands on.
pub proof fn lemma_skip_spaces(doc: Seq<u8>, i: int)
    requires
        0 <= i <= doc.len(),
    ensures
        i <= spec_skip_spaces(doc, i) <= doc.len(),
        spec_skip_spaces(doc, i) < doc.len() ==> !is_space_byte(doc[spec_skip_spaces(doc, i)]),
        forall|j: int| i <= j < spec_skip_spaces(doc, i) ==> is_space_byte(doc[j]),
    decreases doc.len() - i,
{
    if i < doc.len() && is_space_byte(doc[i]) {
        lemma_skip_spaces(doc, i + 1);
    }
}

/// The first position at or after `i` holding no name byte.
pub open spec fn spec_scan_name(doc: Seq<u8>, i: int) -> int
    decreases doc.len() - i,
{
    if i < 0 {
        0
    } else if i >= doc.len() {
        doc.len() as int
    } else if is_name_byte(doc[i]) {
        spec_scan_name(doc, i + 1)
    } else {
        i
    }
}

/// What `spec_scan_name` lands on.
pub proof fn lemma_scan_name(doc: Seq<u8>, i: int)
    requires
        0 <= i <= doc.len(),
    ensures
        i <= spec_scan_name(doc, i) <= doc.len(),
        spec_scan_name(doc, i) < doc.len() ==> !is_name_byte(doc[spec_scan_name(doc, i)]),
        forall|j: int| i <= j < spec_scan_name(doc, i) ==> is_name_byte(doc[j]),
    decreases doc.len() - i,
{
    if i < doc.len() && is_name_byte(doc[i]) {
        lemma_scan_name(doc, i + 1);
    }
}

/// The attributes readable from position `i` inside a start tag, and the
/// position just past the tag's closing bracket. A malformed attribute
/// abandons the rest of the tag.
pub open spec fn spec_parse_attrs(doc: Seq<u8>, i: int) -> (Seq<SpecAttr>, int)
    decreases doc.len() - i,
    via spec_parse_attrs_decreases
{
    let n = doc.len() as int;
    if i < 0 || i > n {
        (Seq::empty(), n)
    } else {
        let j = spec_skip_spaces(doc, i);
        if j >= n {
            (Seq::empty(), n)
        } else if doc[j] == GT {
            (Seq::empty(), j + 1)
        } else if doc[j] == 47 {
            // A self-closing mark: the tag ends at its bracket.
            let k = spec_skip_until(doc, j, GT);
            if k < n {
                (Seq::empty(), k + 1)
            } else {
                (Seq::empty(), n)
            }
        } else if is_name_byte(doc[j]) {
            let e = spec_scan_name(doc, j);
            let name = doc.subrange(j, e);
            let q = spec_skip_spaces(doc, e);
            if q < n && doc[q] == 61 {
                let v = spec_skip_spaces(doc, q + 1);
                if v < n && (doc[v] == 34 || doc[v] == 39) {
                    let w = spec_skip_until(doc, v + 1, doc[v]);
                    if w < n {
                        let rest = spec_parse_attrs(doc, w + 1);
                        (
                            seq![SpecAttr { name, value: doc.subrange(v + 1, w) }] + rest.0,
                            rest.1,
                        )
                    } else {
                        (Seq::empty(), n)
                    }
                } else {
                    // An unquoted value: the tag is abandoned.
                    let k = spec_skip_until(doc, q, GT);
                    if k < n {
                        (Seq::empty(), k + 1)
                    } else {
                        (Seq::empty(), n)
                    }
                }
            } else {
                // A bare attribute name carries an empty value.
                let from = if q > i {
                    q
                } else {
                    i + 1
                };
                let rest = spec_parse_attrs(doc, from);
                (seq![SpecAttr { name, value: Seq::empty() }] + rest.0, rest.1)
            }
        } else {
            // An unexpected byte: the tag is abandoned.
            let k = spec_skip_until(doc, j, GT);
            if k < n {
                (Seq::empty(), k + 1)
            } else {
                (Seq::empty(), n)
            }
        }
    }
}

#[via_fn]
proof fn spec_parse_attrs_decreases(doc: Seq<u8>, i: int) {
    let n = doc.len() as int;
    if 0 <= i <= n {
        lemma_skip_spaces(doc, i);
        let j = spec_skip_spaces(doc, i);
        if j < n && doc[j] != GT && doc[j] != 47 && is_name_byte(doc[j]) {
            lemma_scan_name(doc, j);
            let e = spec_scan_name(doc, j);
            lemma_skip_spaces(doc, e);
            let q = spec_skip_spaces(doc, e);
            if q < n && doc[q] == 61 {
                lemma_skip_spaces(doc, q + 1);
                let v = spec_skip_spaces(doc, q + 1);
                if v < n && (doc[v] == 34 || doc[v] == 39) {
                    lemma_skip_until(doc, v + 1, doc[v]);
                }
            }
        }
    }
}

/// Parsing attributes never moves the cursor backwards.
pub proof fn lemma_parse_attrs_advances(doc: Seq<u8>, i: int)
    requires
        0 <= i <= doc.len(),
    ensures
        spec_parse_attrs(doc, i).1 > i || spec_parse_attrs(doc, i).1 == doc.len(),
        spec_parse_attrs(doc, i).1 <= doc.len(),
    decreases doc.len() - i,
{
    let n = doc.len() as int;
    let j = spec_skip_spaces(doc, i);
    lemma_skip_spaces(doc, i);
    if j < n {
        if doc[j] == GT {
        } else if doc[j] == 47 {
            lemma_skip_until(doc, j, GT);
        } else if is_name_byte(doc[j]) {
            let e = spec_scan_name(doc, j);
            lemma_scan_name(doc, j);
            let q = spec_skip_spaces(doc, e);
            lemma_skip_spaces(doc, e);
            if q < n && doc[q] == 61 {
                let v = spec_skip_spaces(doc, q + 1);
                lemma_skip_spaces(doc, q + 1);
                if v < n && (doc[v] == 34 || doc[v] == 39) {
                    let w = spec_skip_until(doc, v + 1, doc[v]);
                    lemma_skip_until(doc, v + 1, doc[v]);
                    if w < n {
                        lemma_parse_attrs_advances(doc, w + 1);
                    }
                } else {
                    lemma_skip_until(doc, q, GT);
                }
            } else {
                let from = if q > i {
                    q
                } else {
                    i + 1
                };
                lemma_parse_attrs_advances(doc, from);
            }
        } else {
            lemma_skip_until(doc, j, GT);
        }
    }
}

/// Every start tag readable from position `i` onwards, in document order.
pub open spec fn spec_scan_elems(doc: Seq<u8>, i: int) -> Seq<SpecElem>
    decreases doc.len() - i,
    via spec_scan_elems_decreases
{
    let n = doc.len() as int;
    if i < 0 || i >= n {
        Seq::empty()
    } else if doc[i] != LT {
        let j = spec_skip_until(doc, i, LT);
        if j > i && j < n {
            spec_scan_elems(doc, j)
        } else {
            Seq::empty()
        }
    } else if i + 1 >= n {
        Seq::empty()
    } else if is_name_byte(doc[i + 1]) {
        let e = spec_scan_name(doc, i + 1);
        let name = doc.subrange(i + 1, e);
        let parsed = spec_parse_attrs(doc, e);
        let nxt = if parsed.1 > e {
            parsed.1
        } else {
            e + 1
        };
        let elem = SpecElem { name, attrs: parsed.0 };
        if nxt < n {
            seq![elem] + spec_scan_elems(doc, nxt)
        } else {
            seq![elem]
        }
    } else {
        // A declaration, comment, closing tag or stray bracket: pass over it.
        let k = spec_skip_until(doc, i + 1, GT);
        if k + 1 < n {
            spec_scan_elems(doc, k + 1)
        } else {
            Seq::empty()
        }
    }
}

/// Finds the first occurrence of `b` at or after `i`.
#[verifier::loop_isolation(false)]
fn skip_until_at(doc: &[u8], i: usize, b: u8) -> (r: usize)
    requires
        i <= doc@.len(),
    ensures
        r == spec_skip_until(doc@, i as int, b),
        i <= r <= doc@.len(),
        r < doc@.len() ==> doc@[r as int] == b,
        forall|j: int| i <= j < r ==> doc@[j] != b,
{
    let mut k: usize = i;
    while k < doc.len()
        invariant
            i <= k <= doc@.len(),
            spec_skip_until(doc@, i as int, b) == spec_skip_until(doc@, k as int, b),
            forall|j: int| i <= j < k ==> doc@[j] != b,
        decreases doc@.len() - k,
    {
        if doc[k] == b {
            proof {
                lemma_skip_until(doc@, i as int, b);
            }
            return k;
        }
        k = k + 1;
    }
    proof {
        lemma_skip_until(doc@, i as int, b);
    }
    k
}

/// Finds the first non-whitespace byte at or after `i`.
#[verifier::loop_isolation(false)]
fn skip_spaces_at(doc: &[u8], i: usize) -> (r: usize)
    requires
        i <= doc@.len(),
    ensures
        r == spec_skip_spaces(doc@, i as int),
        i <= r <= doc@.len(),
{
    let mut k: usize = i;
    while k < doc.len()
        invariant
            i <= k <= doc@.len(),
            spec_skip_spaces(doc@, i as int) == spec_skip_spaces(doc@, k as int),
        decreases doc@.len() - k,
    {
        let c = doc[k];
        if !(c == 32 || c == 9 || c == 10 || c == 13) {
            proof {
                lemma_skip_spaces(doc@, i as int);
            }
            return k;
        }
        k = k + 1;
    }
    proof {
        lemma_skip_spaces(doc@, i as int);
    }
    k
}

/// Whether `b` may stand in a name, decided executably.
fn name_byte(b: u8) -> (r: bool)
    ensures
        r == is_name_byte(b),
{
    (48 <= b && b <= 57) || (65 <= b && b <= 90) || (97 <= b && b <= 122) || b == 45 || b == 95
        || b == 58 || b == 46
}

/// Finds the end of the name starting at `i`.
#[verifier::loop_isolation(false)]
fn scan_name_at(doc: &[u8], i: usize) -> (r: usize)
    requires
        i <= doc@.len(),
    ensures
        r == spec_scan_name(doc@, i as int),
        i <= r <= doc@.len(),
{
    let mut k: usize = i;
    while k < doc.len()
        invariant
            i <= k <= doc@.len(),
            spec_scan_name(doc@, i as int) == spec_scan_name(doc@, k as int),
        decreases doc@.len() - k,
    {
        if !name_byte(doc[k]) {
            proof {
                lemma_scan_name(doc@, i as int);
            }
            return k;
        }
        k = k + 1;
    }
    proof {
        lemma_scan_name(doc@, i as int);
    }
    k
}

/// Reads the attributes of the start tag whose name ends at `i`, yielding
/// them with the position just past the tag.
#[verifier::loop_isolation(false)]
fn parse_attrs_at(doc: &[u8], i: usize) -> (r: (Vec<Attr>, usize))
    requires
        i <= doc@.len(),
    ensures
        attrs_view(r.0@) == spec_parse_attrs(doc@, i as int).0,
        r.1 == spec_parse_attrs(doc@, i as int).1,
        r.1 <= doc@.len(),
    decreases doc@.len() - i,
{
    proof {
        lemma_parse_attrs_advances(doc@, i as int);
    }
    let n = doc.len();
    let j = skip_spaces_at(doc, i);
    if j >= n {
        let empty: Vec<Attr> = Vec::new();
        assert(attrs_view(empty@) =~= Seq::<SpecAttr>::empty());
        return (empty, n);
    }
    let cj = doc[j];
    if cj == GT {
        let empty: Vec<Attr> = Vec::new();
        assert(attrs_view(empty@) =~= Seq::<SpecAttr>::empty());
        return (empty, j + 1);
    }
    if cj == 47 || !name_byte(cj) {
        let k = skip_until_at(doc, j, GT);
        let empty: Vec<Attr> = Vec::new();
        assert(attrs_view(empty@) =~= Seq::<SpecAttr>::empty());
        if k < n {
            return (empty, k + 1);
        } else {
            return (empty, n);
        }
    }
    let e = scan_name_at(doc, j);
    let name = vstd::slice::slice_to_vec(vstd::slice::slice_subrange(doc, j, e));
    assert(name@ =~= doc@.subrange(j as int, e as int));
    let q = skip_spaces_at(doc, e);
    if q < n && doc[q] == 61 {
        let v = skip_spaces_at(doc, q + 1);
        if v < n && (doc[v] == 34 || doc[v] == 39) {
            let w = skip_until_at(doc, v + 1, doc[v]);
            if w < n {
                let value = vstd::slice::slice_to_vec(vstd::slice::slice_subrange(doc, v + 1, w));
                assert(value@ =~= doc@.subrange(v + 1 as int, w as int));
                let mut rest = parse_attrs_at(doc, w + 1);
                let mut out: Vec<Attr> = Vec::new();
                out.push(Attr { name, value });
                let ghost first = attrs_view(out@);
                let ghost restv = attrs_view(rest.0@);
                out.append(&mut rest.0);
                proof {
                    assert(attrs_view(out@) =~= first + restv);
                    assert(first =~= seq![
                        SpecAttr {
                            name: doc@.subrange(j as int, e as int),
                            value: doc@.subrange(v + 1 as int, w as int),
                        },
                    ]);
                }
                return (out, rest.1);
            } else {
                let empty: Vec<Attr> = Vec::new();
                assert(attrs_view(empty@) =~= Seq::<SpecAttr>::empty());
                return (empty, n);
            }
        } else {
            let k = skip_until_at(doc, q, GT);
            let empty: Vec<Attr> = Vec::new();
            assert(attrs_view(empty@) =~= Seq::<SpecAttr>::empty());
            if k < n {
                return (empty, k + 1);
            } else {
                return (empty, n);
            }
        }
    } else {
        let from = if q > i {
            q
        } else {
            i + 1
        };
        let mut rest = parse_attrs_at(doc, from);
        let mut out: Vec<Attr> = Vec::new();
        let value: Vec<u8> = Vec::new();
        out.push(Attr { name, value });
        let ghost first = attrs_view(out@);
        let ghost restv = attrs_view(rest.0@);
        out.append(&mut rest.0);
        proof {
            assert(attrs_view(out@) =~= first + restv);
            assert(first =~= seq![
                SpecAttr { name: doc@.subrange(j as int, e as int), value: Seq::empty() },
            ]);
        }
        return (out, rest.1);
    }
}

/// Scans the whole document for its start tags, in document order.
#[verifier::loop_isolation(false)]
pub fn scan_elements(doc: &[u8]) -> (r: Vec<Element>)
    ensures
        elems_view(r@) == spec_scan_elems(doc@, 0),
{
    let n = doc.len();
    let mut out: Vec<Element> = Vec::new();
    let mut cur: usize = 0;
    assert(elems_view(out@) =~= Seq::<SpecElem>::empty());
    while cur < n
        invariant
            cur <= doc@.len(),
            spec_scan_elems(doc@, 0) == elems_view(out@) + spec_scan_elems(doc@, cur as int),
        decreases doc@.len() - cur,
    {
        if doc[cur] != LT {
            let j = skip_until_at(doc, cur, LT);
            if j < n {
                cur = j;
            } else {
                proof {
                    assert(elems_view(out@) + spec_scan_elems(doc@, cur as int) =~= elems_view(
                        out@,
                    ));
                }
                return out;
            }
        } else if cur + 1 >= n {
            proof {
                assert(elems_view(out@) + spec_scan_elems(doc@, cur as int) =~= elems_view(out@));
            }
            return out;
        } else if name_byte(doc[cur + 1]) {
            let e = scan_name_at(doc, cur + 1);
            let name = vstd::slice::slice_to_vec(vstd::slice::slice_subrange(doc, cur + 1, e));
            assert(name@ =~= doc@.subrange(cur + 1 as int, e as int));
            let parsed = parse_attrs_at(doc, e);
            let more: bool;
            let mut nxt: usize = 0;
            if parsed.1 > e {
                more = parsed.1 < n;
                if more {
                    nxt = parsed.1;
                }
            } else {
                more = e < n && e + 1 < n;
                if more {
                    nxt = e + 1;
                }
            }
            let ghost snxt: int = if parsed.1 > e {
                parsed.1 as int
            } else {
                e + 1 as int
            };
            proof {
                assert(more == (snxt < n));
                assert(more ==> nxt == snxt);
            }
            let ghost before = elems_view(out@);
            let elem = Element { name, attrs: parsed.0 };
            let ghost ev = elem_view(elem);
            out.push(elem);
            proof {
                assert(elems_view(out@) =~= before + seq![ev]);
            }
            if more {
                proof {
                    assert(spec_scan_elems(doc@, cur as int) =~= seq![ev] + spec_scan_elems(
                        doc@,
                        nxt as int,
                    ));
                    assert((before + seq![ev]) + spec_scan_elems(doc@, nxt as int) =~= before + (
                    seq![ev] + spec_scan_elems(doc@, nxt as int)));
                }
                cur = nxt;
            } else {
                proof {
                    assert(spec_scan_elems(doc@, cur as int) =~= seq![ev]);
                    assert(elems_view(out@) =~= before + seq![ev]);
                }
                return out;
            }
        } else {
            let k = skip_until_at(doc, cur + 1, GT);
            if k < n && k + 1 < n {
                cur = k + 1;
            } else {
                proof {
                    assert(elems_view(out@) + spec_scan_elems(doc@, cur as int) =~= elems_view(
                        out@,
                    ));
                }
                return out;
            }
        }
    }
    proof {
        assert(elems_view(out@) + spec_scan_elems(doc@, cur as int) =~= elems_view(out@));
    }
    out
}

/// The first element of the run whose name spells `tag`, if any.
pub open spec fn spec_find_elem(elems: Seq<SpecElem>, tag: Seq<char>) -> Option<SpecElem>
    decreases elems.len(),
{
    if elems.len() == 0 {
        None
    } else if crate::textutil::chars_of_bytes(elems[0].name) == tag {
        Some(elems[0])
    } else {
        spec_find_elem(elems.skip(1), tag)
    }
}

/// Finds the first element whose name spells `tag`, as an index into `elems`.
#[verifier::loop_isolation(false)]
pub fn find_element(elems: &Vec<Element>, tag: &str) -> (r: Option<usize>)
    ensures
        match r {
            Some(idx) => idx < elems@.len() && spec_find_elem(elems_view(elems@), tag@) == Some(
                elem_view(elems@[idx as int]),
            ),
            None => spec_find_elem(elems_view(elems@), tag@) is None,
        },
{
    let mut i: usize = 0;
    assert(elems_view(elems@).skip(0) =~= elems_view(elems@));
    while i < elems.len()
        invariant
            i <= elems@.len(),
            spec_find_elem(elems_view(elems@), tag@) == spec_find_elem(
                elems_view(elems@).skip(i as int),
                tag@,
            ),
        decreases elems@.len() - i,
    {
        proof {
            assert(elems_view(elems@).skip(i as int)[0] == elem_view(elems@[i as int]));
            assert(elems_view(elems@).skip(i as int).skip(1) =~= elems_view(elems@).skip(
                i + 1 as int,
            ));
        }
        if crate::textutil::str_eq_bytes(elems[i].name.as_slice(), tag) {
            return Some(i);
        }
        i = i + 1;
    }
    proof {
        assert(elems_view(elems@).skip(i as int) =~= Seq::<SpecElem>::empty());
    }
    None
}

/// The value of the first attribute of `attrs` whose name spells `name`.
pub open spec fn spec_attr_value(attrs: Seq<SpecAttr>, name: Seq<char>) -> Option<Seq<u8>>
    decreases attrs.len(),
{
    if attrs.len() == 0 {
        None
    } else if crate::textutil::chars_of_bytes(attrs[0].name) == name {
        Some(attrs[0].value)
    } else {
        spec_attr_value(attrs.skip(1), name)
    }
}

/// Reads the value of the first attribute of `e` whose name spells `name`.
#[verifier::loop_isolation(false)]
pub fn get_attr(e: &Element, name: &str) -> (r: Option<Vec<u8>>)
    ensures
        match r {
            Some(v) => spec_attr_value(elem_view(*e).attrs, name@) == Some(v@),
            None => spec_attr_value(elem_view(*e).attrs, name@) is None,
        },
{
    let mut i: usize = 0;
    assert(elem_view(*e).attrs.skip(0) =~= elem_view(*e).attrs);
    while i < e.attrs.len()
        invariant
            i <= e.attrs@.len(),
            spec_attr_value(elem_view(*e).attrs, name@) == spec_attr_value(
                elem_view(*e).attrs.skip(i as int),
                name@,
            ),
        decreases e.attrs@.len() - i,
    {
        proof {
            assert(elem_view(*e).attrs.skip(i as int)[0] == attr_view(e.attrs@[i as int]));
            assert(elem_view(*e).attrs.skip(i as int).skip(1) =~= elem_view(*e).attrs.skip(
                i + 1 as int,
            ));
        }
        if crate::textutil::str_eq_bytes(e.attrs[i].name.as_slice(), name) {
            let v = vstd::slice::slice_to_vec(e.attrs[i].value.as_slice());
            return Some(v);
        }
        i = i + 1;
    }
    proof {
        assert(elem_view(*e).attrs.skip(i as int) =~= Seq::<SpecAttr>::empty());
    }
    None
}

#[via_fn]
proof fn spec_scan_elems_decreases(doc: Seq<u8>, i: int) {
    let n = doc.len() as int;
    if 0 <= i < n {
        if doc[i] != LT {
            lemma_skip_until(doc, i, LT);
        } else if i + 1 < n {
            if is_name_byte(doc[i + 1]) {
                lemma_scan_name(doc, i + 1);
                lemma_parse_attrs_advances(doc, spec_scan_name(doc, i + 1));
            } else {
                lemma_skip_until(doc, i + 1, GT);
            }
        }
    }
}

} // verus!
