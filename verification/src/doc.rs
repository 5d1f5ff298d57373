//! The hierarchical default-settings document: scalars, arrays and tables
//! with arbitrary nesting, and the deep-merge combinator that folds layered
//! fragments into one canonical document.

use vstd::prelude::*;

verus! {

/// The mathematical model of a document node.  A table is an ordered
/// association list of key/value pairs; an array is an ordered sequence.
pub enum Doc {
    Boolean(bool),
    Integer(i64),
    FloatText(Seq<char>),
    Datetime(Seq<char>),
    Text(Seq<char>),
    Array(Seq<Doc>),
    Table(Seq<(Seq<char>, Doc)>),
}

/// One node of a default-settings document.  A float is carried as its
/// shortest round-tripping decimal text and a datetime as its canonical
/// text, so the structure holds plain values only.
#[derive(Debug)]
pub enum DocValue {
    Boolean(bool),
    Integer(i64),
    FloatText(String),
    Datetime(String),
    Text(String),
    Array(Vec<DocValue>),
    Table(Vec<(String, DocValue)>),
}

/// The model of one table entry.
pub open spec fn entry_model(p: (String, DocValue)) -> (Seq<char>, Doc)
    decreases p,
{
    (p.0@, doc_of(p.1))
}

/// The models of a sequence of array elements.
pub open spec fn items_model(s: Seq<DocValue>) -> Seq<Doc>
    decreases s,
{
    Seq::new(
        s.len(),
        |i: int|
            if 0 <= i < s.len() {
                doc_of(s[i])
            } else {
                Doc::Boolean(false)
            },
    )
}

/// The models of a sequence of table entries.
pub open spec fn entries_model(s: Seq<(String, DocValue)>) -> Seq<(Seq<char>, Doc)>
    decreases s,
{
    Seq::new(
        s.len(),
        |i: int|
            if 0 <= i < s.len() {
                entry_model(s[i])
            } else {
                (Seq::empty(), Doc::Boolean(false))
            },
    )
}

/// The model of a document node.
pub open spec fn doc_of(v: DocValue) -> Doc
    decreases v,
{
    match v {
        DocValue::Boolean(b) => Doc::Boolean(b),
        DocValue::Integer(n) => Doc::Integer(n),
        DocValue::FloatText(s) => Doc::FloatText(s@),
        DocValue::Datetime(s) => Doc::Datetime(s@),
        DocValue::Text(s) => Doc::Text(s@),
        DocValue::Array(items) => Doc::Array(items_model(items@)),
        DocValue::Table(entries) => Doc::Table(entries_model(entries@)),
    }
}

impl View for DocValue {
    type V = Doc;

    open spec fn view(&self) -> Doc {
        doc_of(*self)
    }
}

/// The first index of an entry with key `k`, or -1 when no entry has it.
pub open spec fn find_entry(s: Seq<(Seq<char>, Doc)>, k: Seq<char>) -> int
    decreases s.len(),
{
    if s.len() == 0 {
        -1
    } else if s[0].0 == k {
        0
    } else {
        let r = find_entry(s.drop_first(), k);
        if r == -1 {
            -1
        } else {
            r + 1
        }
    }
}

/// What `find_entry` returns: -1 exactly when no entry has the key, and
/// otherwise the first index that does.
pub proof fn lemma_find_entry(s: Seq<(Seq<char>, Doc)>, k: Seq<char>)
    ensures
        find_entry(s, k) == -1 ==> forall|i: int| 0 <= i < s.len() ==> (#[trigger] s[i]).0 != k,
        find_entry(s, k) != -1 ==> 0 <= find_entry(s, k) < s.len() && s[find_entry(s, k)].0 == k
            && forall|i: int| 0 <= i < find_entry(s, k) ==> (#[trigger] s[i]).0 != k,
    decreases s.len(),
{
    if s.len() == 0 {
    } else if s[0].0 == k {
    } else {
        let rest = s.drop_first();
        lemma_find_entry(rest, k);
        let r = find_entry(rest, k);
        if r == -1 {
            assert forall|i: int| 0 <= i < s.len() implies (#[trigger] s[i]).0 != k by {
                if i > 0 {
                    assert(rest[i - 1] == s[i]);
                }
            }
        } else {
            assert(rest[r] == s[r + 1]);
            assert forall|i: int| 0 <= i < r + 1 implies (#[trigger] s[i]).0 != k by {
                if i > 0 {
                    assert(rest[i - 1] == s[i]);
                }
            }
        }
    }
}

/// One base entry after the overlay is applied to it: if the overlay holds
/// the entry's key, the overlay value replaces or recursively merges the
/// base value; otherwise the entry stands unchanged.
pub open spec fn merge_entry(e: (Seq<char>, Doc), o: Seq<(Seq<char>, Doc)>) -> (Seq<char>, Doc)
    decreases e, o,
{
    let j = find_entry(o, e.0);
    if j >= 0 {
        (e.0, merge_doc(e.1, o[j].1))
    } else {
        e
    }
}

/// The base entries after key-wise application of the overlay, in base
/// order.
pub open spec fn updated_entries(
    b: Seq<(Seq<char>, Doc)>,
    o: Seq<(Seq<char>, Doc)>,
) -> Seq<(Seq<char>, Doc)>
    decreases b, o,
{
    Seq::new(
        b.len(),
        |i: int|
            if 0 <= i < b.len() {
                merge_entry(b[i], o)
            } else {
                (Seq::empty(), Doc::Boolean(false))
            },
    )
}

/// The overlay entries whose key the base does not hold, in overlay order.
pub open spec fn appended_entries(
    b: Seq<(Seq<char>, Doc)>,
    o: Seq<(Seq<char>, Doc)>,
) -> Seq<(Seq<char>, Doc)> {
    o.filter(|p: (Seq<char>, Doc)| find_entry(b, p.0) < 0)
}

/// The deep merge of two document nodes.  Two tables merge key-wise:
/// entries of the base keep their position and are merged with the overlay
/// entry of the same key, if any, and fresh overlay keys are appended in
/// overlay order; every other pairing — scalars, arrays, and mixed kinds —
/// is replaced by the overlay wholesale.
pub open spec fn merge_doc(base: Doc, over: Doc) -> Doc
    decreases base, over,
{
    match base {
        Doc::Table(b) => match over {
            Doc::Table(o) => Doc::Table(updated_entries(b, o) + appended_entries(b, o)),
            _ => over,
        },
        _ => over,
    }
}

/// Whether one table entry's value is well formed.
pub open spec fn entry_wf(e: (Seq<char>, Doc)) -> bool
    decreases e,
{
    doc_wf(e.1)
}

/// Whether every document in the sequence is well formed.
pub open spec fn docs_wf(s: Seq<Doc>) -> bool
    decreases s,
{
    forall|i: int| 0 <= i < s.len() ==> doc_wf(#[trigger] s[i])
}

/// Whether every entry's value is well formed.
pub open spec fn table_values_wf(s: Seq<(Seq<char>, Doc)>) -> bool
    decreases s,
{
    forall|i: int| 0 <= i < s.len() ==> entry_wf(#[trigger] s[i])
}

/// Whether no two entries share a key.
pub open spec fn distinct_keys(s: Seq<(Seq<char>, Doc)>) -> bool {
    forall|i: int, j: int| 0 <= i < j < s.len() ==> (#[trigger] s[i]).0 != (#[trigger] s[j]).0
}

/// Well-formedness of a document: every table, at every depth, holds each
/// key once.
pub open spec fn doc_wf(d: Doc) -> bool
    decreases d,
{
    match d {
        Doc::Array(items) => docs_wf(items),
        Doc::Table(es) => distinct_keys(es) && table_values_wf(es),
        _ => true,
    }
}

/// One merged entry keeps its key, and a well-formed value merged with a
/// well-formed overlay stays well formed.
proof fn lemma_merge_entry_wf(e: (Seq<char>, Doc), o: Seq<(Seq<char>, Doc)>)
    requires
        doc_wf(e.1),
        distinct_keys(o),
        table_values_wf(o),
    ensures
        merge_entry(e, o).0 == e.0,
        doc_wf(merge_entry(e, o).1),
    decreases e, o,
{
    let j = find_entry(o, e.0);
    if j >= 0 {
        lemma_find_entry(o, e.0);
        assert(entry_wf(o[j]));
        lemma_merge_preserves_wf(e.1, o[j].1);
    }
}

/// The key-wise update of the base keeps its keys and keeps every value
/// well formed.
proof fn lemma_updated_wf(b: Seq<(Seq<char>, Doc)>, o: Seq<(Seq<char>, Doc)>)
    requires
        table_values_wf(b),
        distinct_keys(o),
        table_values_wf(o),
    ensures
        updated_entries(b, o).len() == b.len(),
        forall|i: int|
            0 <= i < b.len() ==> (#[trigger] updated_entries(b, o)[i]).0 == b[i].0 && doc_wf(
                updated_entries(b, o)[i].1,
            ),
    decreases b, o,
{
    assert forall|i: int|
        0 <= i < b.len() implies (#[trigger] updated_entries(b, o)[i]).0 == b[i].0 && doc_wf(
        updated_entries(b, o)[i].1,
    ) by {
        assert(entry_wf(b[i]));
        lemma_merge_entry_wf(b[i], o);
    }
}

/// The appended overlay entries are entries of the overlay, their keys are
/// absent from the base, and no two of them share a key.
proof fn lemma_appended_props(b: Seq<(Seq<char>, Doc)>, o: Seq<(Seq<char>, Doc)>)
    requires
        distinct_keys(o),
    ensures
        forall|i: int|
            0 <= i < appended_entries(b, o).len() ==> o.contains(
                #[trigger] appended_entries(b, o)[i],
            ) && find_entry(b, appended_entries(b, o)[i].0) < 0,
        distinct_keys(appended_entries(b, o)),
    decreases o.len(),
{
    reveal_with_fuel(Seq::filter, 2);
    if o.len() > 0 {
        let pre = o.drop_last();
        assert(distinct_keys(pre)) by {
            assert forall|x: int, y: int| 0 <= x < y < pre.len() implies (#[trigger] pre[x]).0 != (
            #[trigger] pre[y]).0 by {
                assert(pre[x] == o[x]);
                assert(pre[y] == o[y]);
            }
        }
        lemma_appended_props(b, pre);
        assert forall|i: int|
            0 <= i < appended_entries(b, o).len() implies o.contains(
            #[trigger] appended_entries(b, o)[i],
        ) && find_entry(b, appended_entries(b, o)[i].0) < 0 by {
            if i < appended_entries(b, pre).len() {
                let x = appended_entries(b, pre)[i];
                assert(pre.contains(x));
                let k = choose|k: int| 0 <= k < pre.len() && pre[k] == x;
                assert(o[k] == x);
                assert(appended_entries(b, o)[i] == x);
            } else {
                assert(appended_entries(b, o)[i] == o.last());
                assert(o[o.len() - 1] == o.last());
            }
        }
        assert forall|x: int, y: int|
            0 <= x < y < appended_entries(b, o).len() implies (#[trigger] appended_entries(
            b,
            o,
        )[x]).0 != (#[trigger] appended_entries(b, o)[y]).0 by {
            if y < appended_entries(b, pre).len() {
                assert(appended_entries(b, o)[x] == appended_entries(b, pre)[x]);
                assert(appended_entries(b, o)[y] == appended_entries(b, pre)[y]);
            } else if y == appended_entries(b, pre).len() && appended_entries(b, o).len()
                > appended_entries(b, pre).len() {
                assert(appended_entries(b, o)[y] == o.last());
                let w = appended_entries(b, pre)[x];
                assert(pre.contains(w));
                let k = choose|k: int| 0 <= k < pre.len() && pre[k] == w;
                assert(o[k] == w);
                assert(o[o.len() - 1] == o.last());
                assert(appended_entries(b, o)[x] == w);
            }
        }
    }
}

/// Law: the deep merge preserves well-formedness — merging two documents
/// whose tables hold each key once yields a document whose tables hold
/// each key once.
pub proof fn lemma_merge_preserves_wf(base: Doc, over: Doc)
    requires
        doc_wf(base),
        doc_wf(over),
    ensures
        doc_wf(merge_doc(base, over)),
    decreases base, over,
{
    match base {
        Doc::Table(b) => match over {
            Doc::Table(o) => {
                let up = updated_entries(b, o);
                let ap = appended_entries(b, o);
                lemma_updated_wf(b, o);
                lemma_appended_props(b, o);
                let merged = up + ap;
                assert forall|i: int, j: int|
                    0 <= i < j < merged.len() implies (#[trigger] merged[i]).0 != (
                #[trigger] merged[j]).0 by {
                    if i < up.len() && j >= up.len() {
                        lemma_find_entry(b, ap[j - up.len()].0);
                    }
                }
                assert forall|i: int| 0 <= i < merged.len() implies entry_wf(
                    #[trigger] merged[i],
                ) by {
                    if i >= up.len() {
                        let x = ap[i - up.len()];
                        assert(o.contains(x));
                        let k = choose|k: int| 0 <= k < o.len() && o[k] == x;
                        assert(entry_wf(o[k]));
                    }
                }
                assert(doc_wf(merge_doc(base, over)));
            },
            _ => {},
        },
        _ => {},
    }
}

/// Returns the index of the first entry named `name`, if any.
pub fn find_key(entries: &Vec<(String, DocValue)>, name: &String) -> (r: Option<usize>)
    ensures
        r matches Some(j) ==> j < entries.len() && find_entry(entries_model(entries@), name@)
            == j as int,
        r is None ==> find_entry(entries_model(entries@), name@) == -1,
{
    let ghost em = entries_model(entries@);
    let mut i: usize = 0;
    while i < entries.len()
        invariant
            em == entries_model(entries@),
            i <= entries.len(),
            forall|m: int| 0 <= m < i ==> (#[trigger] em[m]).0 != name@,
        decreases entries.len() - i,
    {
        if entries[i].0.eq(name) {
            proof {
                assert(em[i as int].0 == name@);
                lemma_find_entry(em, name@);
            }
            return Option::Some(i);
        }
        proof {
            assert(em[i as int].0 == entries@[i as int].0@);
        }
        i += 1;
    }
    proof {
        lemma_find_entry(em, name@);
        if find_entry(em, name@) != -1 {
            assert(em[find_entry(em, name@)].0 == name@);
        }
    }
    Option::None
}

impl DocValue {
    /// A structural copy; the copy has the same model.
    #[verifier::loop_isolation(false)]
    pub fn duplicate(&self) -> (r: DocValue)
        ensures
            r@ == self@,
        decreases *self,
    {
        match self {
            DocValue::Boolean(b) => DocValue::Boolean(*b),
            DocValue::Integer(n) => DocValue::Integer(*n),
            DocValue::FloatText(s) => DocValue::FloatText(s.clone()),
            DocValue::Datetime(s) => DocValue::Datetime(s.clone()),
            DocValue::Text(s) => DocValue::Text(s.clone()),
            DocValue::Array(items) => {
                let mut out: Vec<DocValue> = Vec::new();
                let mut i: usize = 0;
                while i < items.len()
                    invariant
                        i <= items.len(),
                        out@.len() == i,
                        forall|m: int| 0 <= m < i ==> (#[trigger] out@[m])@ == doc_of(items@[m]),
                    decreases items.len() - i,
                {
                    let e = items[i].duplicate();
                    out.push(e);
                    i += 1;
                }
                proof {
                    assert(items_model(out@) =~= items_model(items@));
                }
                DocValue::Array(out)
            },
            DocValue::Table(entries) => {
                let mut out: Vec<(String, DocValue)> = Vec::new();
                let mut i: usize = 0;
                while i < entries.len()
                    invariant
                        i <= entries.len(),
                        out@.len() == i,
                        forall|m: int|
                            0 <= m < i ==> (#[trigger] out@[m]).0@ == entries@[m].0@ && out@[m].1@
                                == doc_of(entries@[m].1),
                    decreases entries.len() - i,
                {
                    let name = entries[i].0.clone();
                    let value = entries[i].1.duplicate();
                    out.push((name, value));
                    i += 1;
                }
                proof {
                    assert(entries_model(out@) =~= entries_model(entries@));
                }
                DocValue::Table(out)
            },
        }
    }
}

/// Merges `over` into `base`, key-wise for tables and wholesale for
/// everything else, and returns the merged document.
#[verifier::loop_isolation(false)]
pub fn deep_merge(base: &DocValue, over: &DocValue) -> (r: DocValue)
    ensures
        r@ == merge_doc(base@, over@),
    decreases *base,
{
    let both_tables = match base {
        DocValue::Table(_) => match over {
            DocValue::Table(_) => true,
            _ => false,
        },
        _ => false,
    };
    if !both_tables {
        return over.duplicate();
    }
    match base {
        DocValue::Table(b) => match over {
            DocValue::Table(o) => {
                let ghost bm = entries_model(b@);
                let ghost om = entries_model(o@);
                let ghost first = updated_entries(bm, om);
                let ghost second = appended_entries(bm, om);
                let mut out: Vec<(String, DocValue)> = Vec::new();
                let mut i: usize = 0;
                while i < b.len()
                    invariant
                        i <= b.len(),
                        out@.len() == i,
                        forall|m: int| 0 <= m < i ==> #[trigger] entries_model(out@)[m] == first[m],
                    decreases b.len() - i,
                {
                    let ghost before = out@;
                    let name = b[i].0.clone();
                    match find_key(o, &name) {
                        Option::Some(j) => {
                            let merged = deep_merge(&b[i].1, &o[j].1);
                            out.push((name, merged));
                            proof {
                                assert(bm[i as int] == entry_model(b@[i as int]));
                                assert(om[j as int] == entry_model(o@[j as int]));
                                assert(first[i as int] == merge_entry(bm[i as int], om));
                            }
                        },
                        Option::None => {
                            let copy = b[i].1.duplicate();
                            out.push((name, copy));
                            proof {
                                assert(bm[i as int] == entry_model(b@[i as int]));
                                assert(first[i as int] == merge_entry(bm[i as int], om));
                            }
                        },
                    }
                    proof {
                        assert forall|m: int| 0 <= m < i + 1 implies #[trigger] entries_model(
                            out@,
                        )[m] == first[m] by {
                            if m < i {
                                assert(entries_model(out@)[m] == entries_model(before)[m]);
                            } else {
                                assert(entries_model(out@)[m] == entry_model(out@[m]));
                            }
                        }
                    }
                    i += 1;
                }
                let mut j: usize = 0;
                while j < o.len()
                    invariant
                        j <= o.len(),
                        entries_model(out@) == first + appended_entries(
                            bm,
                            om.subrange(0, j as int),
                        ),
                    decreases o.len() - j,
                {
                    let ghost before = out@;
                    let ghost pre = om.subrange(0, j as int);
                    let ghost now = om.subrange(0, j + 1 as int);
                    proof {
                        assert(now.drop_last() =~= pre);
                        assert(now.last() == om[j as int]);
                        assert(om[j as int] == entry_model(o@[j as int]));
                    }
                    let name = o[j].0.clone();
                    match find_key(b, &name) {
                        Option::Some(_) => {
                            proof {
                                reveal_with_fuel(Seq::filter, 2);
                                assert(entries_model(out@) == first + appended_entries(bm, now));
                            }
                        },
                        Option::None => {
                            let copy = o[j].1.duplicate();
                            out.push((name, copy));
                            proof {
                                assert(entries_model(out@) =~= entries_model(before).push(
                                    entry_model((name, copy)),
                                ));
                                reveal_with_fuel(Seq::filter, 2);
                                assert(entries_model(out@) =~= first + appended_entries(bm, now));
                            }
                        },
                    }
                    j += 1;
                }
                proof {
                    assert(om.subrange(0, om.len() as int) =~= om);
                    assert(entries_model(out@) == first + second);
                }
                DocValue::Table(out)
            },
            _ => over.duplicate(),
        },
        _ => over.duplicate(),
    }
}

} // verus!
