//! Defaults aggregation: selecting the configuration fragments of a
//! variant's defaults directory, ordering them by file name, and folding
//! them with the deep-merge combinator into one canonical document.

use vstd::prelude::*;
use vstd::multiset::Multiset;
use vstd::utf8::encode_utf8;
use toml::Value;
use crate::doc::{deep_merge, doc_of, doc_wf, lemma_merge_preserves_wf, merge_doc, Doc, DocValue};
use crate::errors::Error;
use crate::order::{
    compare_names, has_toml_suffix, is_toml_name, lemma_bytes_le_antisym, lemma_bytes_le_total,
    lemma_bytes_le_trans, name_le,
};

verus! {

broadcast use vstd::seq_lib::group_to_multiset_ensures;

/// One candidate defaults fragment: the file's name (for ordering and the
/// suffix test) and its text.
#[derive(Debug)]
pub struct Fragment {
    pub name: String,
    pub content: String,
}

/// The model of a fragment: its name and its text.
pub open spec fn frag_model(f: Fragment) -> (Seq<char>, Seq<char>) {
    (f.name@, f.content@)
}

/// The models of a fragment list, in order.
pub open spec fn frag_models(s: Seq<Fragment>) -> Seq<(Seq<char>, Seq<char>)> {
    s.map_values(|f: Fragment| (f.name@, f.content@))
}

/// The fragments whose name ends in the configuration-file suffix, in
/// listing order.
pub open spec fn toml_named(s: Seq<(Seq<char>, Seq<char>)>) -> Seq<(Seq<char>, Seq<char>)> {
    s.filter(|p: (Seq<char>, Seq<char>)| is_toml_name(p.0))
}

/// Whether the fragments stand in ascending file-name order.
pub open spec fn frags_sorted(s: Seq<(Seq<char>, Seq<char>)>) -> bool {
    forall|i: int, j: int| 0 <= i < j < s.len() ==> name_le(#[trigger] s[i].0, #[trigger] s[j].0)
}

/// Whether no two fragments share a file name (compared by the name's
/// bytes, the ordering key).
pub open spec fn distinct_names(s: Seq<(Seq<char>, Seq<char>)>) -> bool {
    forall|i: int, j: int|
        0 <= i < j < s.len() ==> encode_utf8(#[trigger] s[i].0) != encode_utf8(#[trigger] s[j].0)
}

/// Keeps the fragments named with the configuration-file suffix and sorts
/// them into ascending file-name order: the selection rule of the defaults
/// directory.  Ties between equal names may land in either order; a
/// directory listing has no such ties.
pub fn select_fragments(listing: Vec<Fragment>) -> (r: Vec<Fragment>)
    ensures
        frags_sorted(frag_models(r@)),
        frag_models(r@).to_multiset() == toml_named(frag_models(listing@)).to_multiset(),
{
    let ghost lm = frag_models(listing@);
    let mut rest = listing;
    let mut kept: Vec<Fragment> = Vec::new();
    let ghost orig = rest@;
    let mut i: usize = 0;
    proof {
        assert(lm.subrange(0, 0) =~= Seq::<(Seq<char>, Seq<char>)>::empty());
        assert(frag_models(kept@) =~= toml_named(lm.subrange(0, 0)));
    }
    while i < rest.len()
        invariant
            orig == rest@,
            lm == frag_models(rest@),
            i <= rest@.len(),
            frag_models(kept@) == toml_named(lm.subrange(0, i as int)),
        decreases rest@.len() - i,
    {
        let ghost pre = lm.subrange(0, i as int);
        let ghost now = lm.subrange(0, i + 1 as int);
        proof {
            assert(now.drop_last() =~= pre);
            assert(now.last() == lm[i as int]);
            assert(lm[i as int] == (rest@[i as int].name@, rest@[i as int].content@));
        }
        if has_toml_suffix(rest[i].name.as_str()) {
            let ghost before = kept@;
            let name = rest[i].name.clone();
            let content = rest[i].content.clone();
            kept.push(Fragment { name, content });
            proof {
                assert(frag_models(kept@) =~= frag_models(before).push(lm[i as int]));
                reveal_with_fuel(Seq::filter, 2);
                assert(frag_models(kept@) =~= toml_named(now));
            }
        } else {
            proof {
                reveal_with_fuel(Seq::filter, 2);
                assert(frag_models(kept@) =~= toml_named(now));
            }
        }
        i += 1;
    }
    proof {
        assert(lm.subrange(0, lm.len() as int) =~= lm);
    }
    sort_fragments(kept)
}

/// Sorts fragments into ascending file-name order, keeping exactly the
/// given fragments.
fn sort_fragments(input: Vec<Fragment>) -> (r: Vec<Fragment>)
    ensures
        frags_sorted(frag_models(r@)),
        frag_models(r@).to_multiset() == frag_models(input@).to_multiset(),
{
    let ghost total = frag_models(input@).to_multiset();
    let mut src = input;
    let mut out: Vec<Fragment> = Vec::new();
    proof {
        assert(frag_models(out@) =~= Seq::<(Seq<char>, Seq<char>)>::empty());
        assert(frag_models(out@).to_multiset().add(frag_models(src@).to_multiset()) =~= total);
    }
    while src.len() > 0
        invariant
            frag_models(out@).to_multiset().add(frag_models(src@).to_multiset()) == total,
            frags_sorted(frag_models(out@)),
            forall|a: int, b: int|
                0 <= a < out@.len() && 0 <= b < src@.len() ==> name_le(
                    (#[trigger] frag_models(out@)[a]).0,
                    (#[trigger] frag_models(src@)[b]).0,
                ),
        decreases src@.len(),
    {
        let mut min: usize = 0;
        let mut k: usize = 1;
        proof {
            assert(name_le(frag_models(src@)[0].0, frag_models(src@)[0].0)) by {
                assert(frag_models(src@)[0].0 == src@[0].name@);
                lemma_bytes_le_total(encode_utf8(src@[0].name@), encode_utf8(src@[0].name@));
            }
        }
        while k < src.len()
            invariant
                src@.len() > 0,
                min < k,
                k <= src@.len(),
                min < src@.len(),
                forall|m: int|
                    0 <= m < k ==> name_le(frag_models(src@)[min as int].0, (
                    #[trigger] frag_models(src@)[m]).0),
            decreases src@.len() - k,
        {
            proof {
                assert(frag_models(src@)[k as int].0 == src@[k as int].name@);
                assert(frag_models(src@)[min as int].0 == src@[min as int].name@);
            }
            if compare_names(src[min].name.as_str(), src[k].name.as_str()) {
            } else {
                proof {
                    lemma_bytes_le_total(
                        encode_utf8(src@[min as int].name@),
                        encode_utf8(src@[k as int].name@),
                    );
                    assert forall|m: int| 0 <= m < k + 1 implies name_le(
                        frag_models(src@)[k as int].0,
                        (#[trigger] frag_models(src@)[m]).0,
                    ) by {
                        assert(frag_models(src@)[m] == (src@[m].name@, src@[m].content@));
                        if m == k as int {
                            lemma_bytes_le_total(
                                encode_utf8(src@[k as int].name@),
                                encode_utf8(src@[k as int].name@),
                            );
                        } else {
                            lemma_bytes_le_trans(
                                encode_utf8(src@[k as int].name@),
                                encode_utf8(src@[min as int].name@),
                                encode_utf8(frag_models(src@)[m].0),
                            );
                        }
                    }
                }
                min = k;
            }
            k += 1;
        }
        let ghost src_before = src@;
        let ghost out_before = out@;
        let picked = src.remove(min);
        out.push(picked);
        proof {
            assert(frag_models(src@) =~= frag_models(src_before).remove(min as int));
            assert(frag_models(out@) =~= frag_models(out_before).push(frag_model(picked)));
            assert(frag_model(picked) == frag_models(src_before)[min as int]);
            assert(frag_models(out@).to_multiset().add(frag_models(src@).to_multiset())
                =~= total);
            assert forall|a: int, b: int|
                0 <= a < out@.len() && 0 <= b < src@.len() implies name_le(
                (#[trigger] frag_models(out@)[a]).0,
                (#[trigger] frag_models(src@)[b]).0,
            ) by {
                let old_b = if b < min { b } else { b + 1 };
                assert(frag_models(src@)[b] == frag_models(src_before)[old_b]);
                if a < out_before.len() {
                    assert(frag_models(out@)[a] == frag_models(out_before)[a]);
                } else {
                    assert(frag_models(out@)[a] == frag_models(src_before)[min as int]);
                }
            }
            assert(frags_sorted(frag_models(out@)));
        }
    }
    proof {
        assert(frag_models(src@).to_multiset() =~= Multiset::<(Seq<char>, Seq<char>)>::empty());
        assert(frag_models(out@).to_multiset().add(
            Multiset::<(Seq<char>, Seq<char>)>::empty(),
        ) =~= frag_models(out@).to_multiset());
    }
    out
}

/// Law: the selection is deterministic — two sorted fragment sequences
/// holding the same fragments, with no two fragments sharing a name, are
/// equal.  However a directory listing was ordered when read, the selected
/// sequence, and so the merged document, is the same.
pub proof fn lemma_selection_deterministic(
    a: Seq<(Seq<char>, Seq<char>)>,
    b: Seq<(Seq<char>, Seq<char>)>,
)
    requires
        frags_sorted(a),
        frags_sorted(b),
        a.to_multiset() == b.to_multiset(),
        distinct_names(a),
    ensures
        a == b,
        merged_result(a) == merged_result(b),
    decreases a.len(),
{
    assert(a.len() == a.to_multiset().len());
    assert(b.len() == b.to_multiset().len());
    if a.len() == 0 {
        assert(a =~= b);
    } else {
        assert(a.contains(a[0]));
        assert(b.to_multiset().count(a[0]) > 0);
        assert(b.contains(a[0]));
        let j = choose|j: int| 0 <= j < b.len() && b[j] == a[0];
        assert(a.to_multiset().count(b[0]) > 0);
        assert(a.contains(b[0]));
        let m = choose|m: int| 0 <= m < a.len() && a[m] == b[0];
        if j != 0 && m != 0 {
            assert(name_le(b[0].0, b[j].0));
            assert(name_le(a[0].0, a[m].0));
            lemma_bytes_le_antisym(encode_utf8(a[0].0), encode_utf8(b[0].0));
            assert(encode_utf8(a[m].0) == encode_utf8(a[0].0));
            assert(false);
        }
        assert(a[0] == b[0]);
        let at = a.drop_first();
        let bt = b.drop_first();
        assert(at =~= a.remove(0));
        assert(bt =~= b.remove(0));
        assert(at.to_multiset() =~= a.to_multiset().remove(a[0]));
        assert(bt.to_multiset() =~= b.to_multiset().remove(b[0]));
        assert(frags_sorted(at)) by {
            assert forall|x: int, y: int| 0 <= x < y < at.len() implies name_le(
                (#[trigger] at[x]).0,
                (#[trigger] at[y]).0,
            ) by {
                assert(at[x] == a[x + 1]);
                assert(at[y] == a[y + 1]);
            }
        }
        assert(frags_sorted(bt)) by {
            assert forall|x: int, y: int| 0 <= x < y < bt.len() implies name_le(
                (#[trigger] bt[x]).0,
                (#[trigger] bt[y]).0,
            ) by {
                assert(bt[x] == b[x + 1]);
                assert(bt[y] == b[y + 1]);
            }
        }
        assert(distinct_names(at)) by {
            assert forall|x: int, y: int| 0 <= x < y < at.len() implies encode_utf8(
                (#[trigger] at[x]).0,
            ) != encode_utf8((#[trigger] at[y]).0) by {
                assert(at[x] == a[x + 1]);
                assert(at[y] == a[y + 1]);
            }
        }
        lemma_selection_deterministic(at, bt);
        assert forall|i: int| 0 <= i < a.len() implies a[i] == b[i] by {
            if i > 0 {
                assert(at[i - 1] == a[i]);
                assert(bt[i - 1] == b[i]);
            }
        }
        assert(a =~= b);
    }
}

/// The document a fragment's text parses to, when it parses at all.  Both
/// whether it parses and what it parses to are functions of the text
/// alone.
pub uninterp spec fn parsed_doc(s: Seq<char>) -> Option<Doc>;

/// The text a document renders to, when rendering succeeds: a function of
/// the document alone, so identical inputs reproduce the output byte for
/// byte.
pub uninterp spec fn rendered_doc(d: Doc) -> Seq<char>;

/// Whether rendering a document succeeds: a function of the document
/// alone.
pub uninterp spec fn render_ok(d: Doc) -> bool;

#[verifier::external_type_specification]
#[verifier::external_body]
pub struct ExTomlValue(Value);

/// Relies on toml::from_str::<toml::Value>: parsing is a pure function of
/// the text; a parsed document is a table (a TOML document is a table),
/// and it holds each key once at every depth, since TOML rejects
/// duplicate keys and tables are maps.
#[verifier::external_body]
fn parse_fragment(s: &str) -> (r: Option<DocValue>)
    ensures
        r is Some <==> parsed_doc(s@) is Some,
        r matches Some(d) ==> parsed_doc(s@) == Option::Some(d@) && doc_wf(d@) && d@ is Table,
{
    match toml::from_str::<Value>(s) {
        Ok(v) => Option::Some(doc_value_of_toml(v)),
        Err(_) => Option::None,
    }
}

/// Converts toml's document type into the library's, one node for one: a
/// float becomes its shortest round-tripping text, a datetime its
/// canonical text.  Relies on toml::Value's variants only.
#[verifier::external_body]
fn doc_value_of_toml(v: Value) -> DocValue {
    match v {
        Value::String(s) => DocValue::Text(s),
        Value::Integer(n) => DocValue::Integer(n),
        Value::Float(f) => DocValue::FloatText(format!("{}", f)),
        Value::Boolean(b) => DocValue::Boolean(b),
        Value::Datetime(d) => DocValue::Datetime(format!("{}", d)),
        Value::Array(a) => DocValue::Array(a.into_iter().map(doc_value_of_toml).collect()),
        Value::Table(t) => DocValue::Table(t.into_iter().map(|(k, w)| (k, doc_value_of_toml(w))).collect()),
    }
}

/// Converts the library's document type back to toml's, one node for one.
/// Float or datetime text that does not parse back falls out as a plain
/// string.  Relies on toml::Value's variants only.
#[verifier::external_body]
fn toml_of_doc_value(d: &DocValue) -> Value {
    match d {
        DocValue::Boolean(b) => Value::Boolean(*b),
        DocValue::Integer(n) => Value::Integer(*n),
        DocValue::FloatText(s) => s.parse().map(Value::Float).unwrap_or(Value::String(s.clone())),
        DocValue::Datetime(s) => s.parse().map(Value::Datetime).unwrap_or(Value::String(s.clone())),
        DocValue::Text(s) => Value::String(s.clone()),
        DocValue::Array(items) => Value::Array(items.iter().map(toml_of_doc_value).collect()),
        DocValue::Table(es) => Value::Table(es.iter().map(|(k, v)| (k.clone(), toml_of_doc_value(v))).collect()),
    }
}

/// Relies on toml::to_string: rendering is a pure function of the
/// document, so whether it succeeds is one too.  The serializer refuses
/// only what TOML cannot carry at top level (anything but a table); a
/// table tree has no unserializable node, so it always renders.
#[verifier::external_body]
fn render_document(d: &DocValue) -> (r: Option<String>)
    ensures
        r is Some <==> render_ok(d@),
        d@ is Table ==> r is Some,
        r matches Some(s) ==> s@ == rendered_doc(d@),
{
    toml::to_string(&toml_of_doc_value(d)).ok()
}

/// Renders a document as configuration text, or reports that it cannot be
/// serialized.
pub fn render_defaults(d: &DocValue) -> (r: Result<String, Error>)
    ensures
        r is Ok <==> render_ok(d@),
        r matches Ok(s) ==> s@ == rendered_doc(d@),
        r matches Err(e) ==> e == Error::DefaultsSerialize,
{
    match render_document(d) {
        Option::Some(s) => Result::Ok(s),
        Option::None => Result::Err(Error::DefaultsSerialize),
    }
}

/// The empty accumulator the merge starts from.
pub open spec fn empty_table() -> Doc {
    Doc::Table(Seq::empty())
}

/// The deep merge folded over a sequence of documents, in order.
pub open spec fn fold_merge(acc: Doc, docs: Seq<Doc>) -> Doc
    decreases docs.len(),
{
    if docs.len() == 0 {
        acc
    } else {
        fold_merge(merge_doc(acc, docs[0]), docs.drop_first())
    }
}

/// Folding one more document merges it into the fold of the rest.
pub proof fn lemma_fold_push(acc: Doc, docs: Seq<Doc>, d: Doc)
    ensures
        fold_merge(acc, docs.push(d)) == merge_doc(fold_merge(acc, docs), d),
    decreases docs.len(),
{
    reveal_with_fuel(fold_merge, 2);
    if docs.len() == 0 {
        assert(docs.push(d)[0] == d);
        assert(docs.push(d).drop_first() =~= Seq::<Doc>::empty());
    } else {
        assert(docs.push(d)[0] == docs[0]);
        assert(docs.push(d).drop_first() =~= docs.drop_first().push(d));
        lemma_fold_push(merge_doc(acc, docs[0]), docs.drop_first(), d);
    }
}

/// Whether every fragment's text parses.
pub open spec fn all_parse(s: Seq<(Seq<char>, Seq<char>)>) -> bool {
    forall|i: int| 0 <= i < s.len() ==> parsed_doc((#[trigger] s[i]).1) is Some
}

/// The parsed documents of the fragments, in order, meaningful when every
/// fragment parses.
pub open spec fn parsed_docs(s: Seq<(Seq<char>, Seq<char>)>) -> Seq<Doc> {
    Seq::new(s.len(), |i: int| parsed_doc(s[i].1)->0)
}

/// The merged document of an ordered fragment sequence: the fold of the
/// deep merge over the parsed fragments, starting from the empty table.
pub open spec fn merged_result(s: Seq<(Seq<char>, Seq<char>)>) -> Doc {
    fold_merge(empty_table(), parsed_docs(s))
}

/// Parses the given fragments in their given order, deep-merges each into
/// an accumulator that starts as the empty table — later fragments'
/// scalars override earlier ones' at the same key path, nested tables
/// merge key-wise, arrays are replaced wholesale — and renders the merged
/// document.  Succeeds exactly when every fragment is valid configuration
/// text (the merged document is a table, which always renders); fails
/// naming the first fragment that is not.
pub fn merge_fragments(fragments: &Vec<Fragment>) -> (r: Result<String, Error>)
    ensures
        r is Ok <==> all_parse(frag_models(fragments@)),
        r matches Ok(s) ==> s@ == rendered_doc(merged_result(frag_models(fragments@))),
        r matches Err(e) ==> (e matches Error::FragmentParse { name } && exists|i: int|
            0 <= i < fragments@.len() && parsed_doc(
                (#[trigger] frag_models(fragments@)[i]).1,
            ) is None && name@ == frag_models(fragments@)[i].0 && (forall|j: int|
                0 <= j < i ==> parsed_doc((#[trigger] frag_models(fragments@)[j]).1) is Some)),
        r is Ok ==> doc_wf(merged_result(frag_models(fragments@))),
{
    let ghost m = frag_models(fragments@);
    let mut acc = DocValue::Table(Vec::new());
    let mut i: usize = 0;
    proof {
        assert(crate::doc::entries_model(Seq::<(String, DocValue)>::empty()) =~= Seq::<
            (Seq<char>, Doc),
        >::empty());
        assert(parsed_docs(m).subrange(0, 0) =~= Seq::<Doc>::empty());
    }
    while i < fragments.len()
        invariant
            m == frag_models(fragments@),
            i <= fragments@.len(),
            forall|j: int| 0 <= j < i ==> parsed_doc((#[trigger] m[j]).1) is Some,
            acc@ == fold_merge(empty_table(), parsed_docs(m).subrange(0, i as int)),
            doc_wf(acc@),
            acc@ is Table,
        decreases fragments@.len() - i,
    {
        proof {
            assert(m[i as int] == (fragments@[i as int].name@, fragments@[i as int].content@));
        }
        match parse_fragment(fragments[i].content.as_str()) {
            Option::Some(d) => {
                let ghost acc_prev = acc@;
                let merged = deep_merge(&acc, &d);
                acc = merged;
                proof {
                    lemma_merge_preserves_wf(acc_prev, doc_of(d));
                    assert(merge_doc(acc_prev, doc_of(d)) is Table);
                    let pd = parsed_docs(m);
                    assert(pd[i as int] == doc_of(d));
                    assert(pd.subrange(0, i + 1 as int) =~= pd.subrange(0, i as int).push(
                        pd[i as int],
                    ));
                    lemma_fold_push(empty_table(), pd.subrange(0, i as int), pd[i as int]);
                }
            },
            Option::None => {
                let name = fragments[i].name.clone();
                proof {
                    assert(parsed_doc(m[i as int].1) is None);
                }
                return Result::Err(Error::FragmentParse { name });
            },
        }
        i += 1;
    }
    proof {
        assert(parsed_docs(m).subrange(0, m.len() as int) =~= parsed_docs(m));
    }
    match render_document(&acc) {
        Option::Some(s) => Result::Ok(s),
        Option::None => {
            // Unreachable: the accumulator is a table, and a table renders.
            Result::Err(Error::DefaultsSerialize)
        },
    }
}

/// Whether `e` is a parse failure naming an unparsable configuration
/// fragment that the listing selects.
pub open spec fn parse_failure_named(listing: Seq<Fragment>, e: Error) -> bool {
    e matches Error::FragmentParse { name } && exists|i: int|
        0 <= i < toml_named(frag_models(listing)).len() && (#[trigger] toml_named(
            frag_models(listing),
        )[i]).0 == name@ && parsed_doc(toml_named(frag_models(listing))[i].1) is None
}

/// Fragment sequences holding the same fragments either both parse
/// throughout or both hold an unparsable one.
pub proof fn lemma_all_parse_multiset(
    a: Seq<(Seq<char>, Seq<char>)>,
    b: Seq<(Seq<char>, Seq<char>)>,
)
    requires
        a.to_multiset() == b.to_multiset(),
    ensures
        all_parse(a) == all_parse(b),
{
    if all_parse(a) {
        assert forall|i: int| 0 <= i < b.len() implies parsed_doc((#[trigger] b[i]).1) is Some by {
            assert(b.contains(b[i]));
            assert(b.to_multiset().count(b[i]) > 0);
            assert(a.to_multiset().count(b[i]) > 0);
            assert(a.contains(b[i]));
            let j = choose|j: int| 0 <= j < a.len() && a[j] == b[i];
            assert(parsed_doc(a[j].1) is Some);
        }
    }
    if all_parse(b) {
        assert forall|i: int| 0 <= i < a.len() implies parsed_doc((#[trigger] a[i]).1) is Some by {
            assert(a.contains(a[i]));
            assert(a.to_multiset().count(a[i]) > 0);
            assert(b.to_multiset().count(a[i]) > 0);
            assert(b.contains(a[i]));
            let j = choose|j: int| 0 <= j < b.len() && b[j] == a[i];
            assert(parsed_doc(b[j].1) is Some);
        }
    }
}

/// Selects, orders and merges a defaults-directory listing: the whole
/// aggregation step, from raw listing to serialized canonical document.
/// Succeeds exactly when every selected fragment is valid configuration
/// text; fails naming an unparsable one.
pub fn aggregate(listing: Vec<Fragment>) -> (r: Result<String, Error>)
    ensures
        r is Ok <==> all_parse(toml_named(frag_models(listing@))),
        r matches Err(e) ==> parse_failure_named(listing@, e),
        r matches Ok(s) ==> exists|sel: Seq<(Seq<char>, Seq<char>)>|
            #[trigger] frags_sorted(sel) && sel.to_multiset() == toml_named(
                frag_models(listing@),
            ).to_multiset() && all_parse(sel) && s@ == rendered_doc(merged_result(sel)),
{
    let selected = select_fragments(listing);
    let r = merge_fragments(&selected);
    proof {
        let sm = frag_models(selected@);
        let tn = toml_named(frag_models(listing@));
        lemma_all_parse_multiset(sm, tn);
        if r is Ok {
            assert(frags_sorted(sm));
        } else {
            lemma_parse_witness_transfers(selected@, listing@, r->Err_0);
        }
    }
    r
}

/// An unparsable fragment named by an error among the selected fragments
/// is also one among what the listing selects.
pub proof fn lemma_parse_witness_transfers(selected: Seq<Fragment>, listing: Seq<Fragment>, e: Error)
    requires
        frag_models(selected).to_multiset() == toml_named(frag_models(listing)).to_multiset(),
        e matches Error::FragmentParse { name } && exists|i: int|
            0 <= i < selected.len() && parsed_doc(
                (#[trigger] frag_models(selected)[i]).1,
            ) is None && name@ == frag_models(selected)[i].0,
    ensures
        parse_failure_named(listing, e),
{
    broadcast use vstd::seq_lib::group_to_multiset_ensures;

    let sm = frag_models(selected);
    let tn = toml_named(frag_models(listing));
    match e {
        Error::FragmentParse { name } => {
            let i = choose|i: int|
                0 <= i < selected.len() && parsed_doc((#[trigger] sm[i]).1) is None && name@
                    == sm[i].0;
            assert(sm.contains(sm[i]));
            assert(sm.to_multiset().count(sm[i]) > 0);
            assert(tn.to_multiset().count(sm[i]) > 0);
            assert(tn.contains(sm[i]));
            let k = choose|k: int| 0 <= k < tn.len() && tn[k] == sm[i];
            assert(tn[k].0 == name@ && parsed_doc(tn[k].1) is None);
        },
        _ => {},
    }
}

} // verus!
