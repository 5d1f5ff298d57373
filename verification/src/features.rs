//! Feature negotiation: computing the package-visible subset of the
//! variant's ambient capability flags, and the per-feature environment
//! variables whose change must invalidate the build.

use vstd::prelude::*;
use vstd::string::StringExecFns;
use crate::signals::{signal_models, DependencySignal, SignalModel, SignalSink};

verus! {

broadcast use vstd::seq_lib::group_filter_ensures;

/// The views of an ambient feature map: each entry is a feature name and its
/// set/unset value.
pub open spec fn feature_views(s: Seq<(String, bool)>) -> Seq<(Seq<char>, bool)> {
    s.map_values(|p: (String, bool)| (p.0@, p.1))
}

/// The views of a tracked-feature list.
pub open spec fn tracked_views(s: Seq<String>) -> Seq<Seq<char>> {
    s.map_values(|n: String| n@)
}

/// The ambient entries whose name is in the tracked set, in ambient order.
pub open spec fn retained(a: Seq<(Seq<char>, bool)>, t: Seq<Seq<char>>) -> Seq<
    (Seq<char>, bool),
> {
    a.filter(|p: (Seq<char>, bool)| t.contains(p.0))
}

/// The negotiated feature map, as a pure function of the variant's ambient
/// map and the package's tracked set: an absent ambient map gives an absent
/// result; an absent tracked set clears the map entirely (a package opts
/// out of all features by omission — an untracked package cannot have
/// assumed any feature's presence); otherwise exactly the ambient entries
/// whose name the package tracks are retained, in their ambient order.
pub open spec fn spec_negotiate(
    ambient: Option<Seq<(Seq<char>, bool)>>,
    declared: Option<Seq<Seq<char>>>,
) -> Option<Seq<(Seq<char>, bool)>> {
    match ambient {
        Option::None => Option::None,
        Option::Some(a) => match declared {
            Option::None => Option::Some(Seq::empty()),
            Option::Some(t) => Option::Some(retained(a, t)),
        },
    }
}

/// The views of an optional ambient feature map.
pub open spec fn feature_map_views(m: Option<Vec<(String, bool)>>) -> Option<
    Seq<(Seq<char>, bool)>,
> {
    match m {
        Option::None => Option::None,
        Option::Some(v) => Option::Some(feature_views(v@)),
    }
}

/// The views of an optional tracked-feature list.
pub open spec fn tracked_set_views(t: Option<Vec<String>>) -> Option<Seq<Seq<char>>> {
    match t {
        Option::None => Option::None,
        Option::Some(v) => Option::Some(tracked_views(v@)),
    }
}

/// Returns whether `tracked` holds `name`.
fn tracked_contains(declared: &Vec<String>, name: &String) -> (r: bool)
    ensures
        r == tracked_views(declared@).contains(name@),
{
    let mut i: usize = 0;
    while i < declared.len()
        invariant
            i <= declared.len(),
            forall|j: int| 0 <= j < i ==> tracked_views(declared@)[j] != name@,
        decreases declared.len() - i,
    {
        if declared[i].eq(name) {
            assert(tracked_views(declared@)[i as int] == name@);
            assert(tracked_views(declared@).contains(name@));
            return true;
        }
        assert(tracked_views(declared@)[i as int] == declared@[i as int]@);
        i += 1;
    }
    false
}

/// Computes the package-visible subset of the variant's ambient feature
/// map.  This is a monotonic intersection, not a build-time toggle: a
/// feature absent from the result is simply never observable to the
/// package's build steps.
pub fn negotiate(ambient: Option<Vec<(String, bool)>>, declared: &Option<Vec<String>>) -> (r:
    Option<Vec<(String, bool)>>)
    ensures
        feature_map_views(r) == spec_negotiate(
            feature_map_views(ambient),
            tracked_set_views(*declared),
        ),
{
    match ambient {
        Option::None => Option::None,
        Option::Some(a) => match declared {
            Option::None => {
                let empty: Vec<(String, bool)> = Vec::new();
                proof {
                    assert(feature_views(empty@) =~= Seq::<(Seq<char>, bool)>::empty());
                }
                Option::Some(empty)
            },
            Option::Some(t) => {
                let ghost av = feature_views(a@);
                let ghost tv = tracked_views(t@);
                let mut kept: Vec<(String, bool)> = Vec::new();
                let mut i: usize = 0;
                proof {
                    assert(av.subrange(0, 0) =~= Seq::<(Seq<char>, bool)>::empty());
                    assert(feature_views(kept@) =~= retained(av.subrange(0, 0), tv));
                }
                while i < a.len()
                    invariant
                        av == feature_views(a@),
                        tv == tracked_views(t@),
                        i <= a.len(),
                        feature_views(kept@) == retained(av.subrange(0, i as int), tv),
                    decreases a.len() - i,
                {
                    let name = a[i].0.clone();
                    let value = a[i].1;
                    let ghost pre = av.subrange(0, i as int);
                    let ghost now = av.subrange(0, i + 1 as int);
                    proof {
                        assert(now.drop_last() =~= pre);
                        assert(now.last() == av[i as int]);
                        assert(av[i as int] == (a@[i as int].0@, a@[i as int].1));
                        assert(name@ == av[i as int].0);
                    }
                    if tracked_contains(t, &name) {
                        let ghost before = kept@;
                        kept.push((name, value));
                        proof {
                            assert(feature_views(kept@) =~= feature_views(before).push(
                                (name@, value),
                            ));
                            reveal_with_fuel(Seq::filter, 2);
                            assert(feature_views(kept@) == retained(now, tv));
                        }
                    } else {
                        proof {
                            reveal_with_fuel(Seq::filter, 2);
                            assert(feature_views(kept@) == retained(now, tv));
                        }
                    }
                    i += 1;
                }
                proof {
                    assert(av.subrange(0, av.len() as int) =~= av);
                }
                Option::Some(kept)
            },
        },
    }
}

/// The environment variable watched for one tracked feature.
pub open spec fn feature_env_name(name: Seq<char>) -> Seq<char> {
    "BUILDSYS_VARIANT_IMAGE_FEATURE_"@ + name
}

/// The signal models owed for a tracked-feature list: one environment watch
/// per tracked name, in order, and none when no set is declared.
pub open spec fn feature_signal_models(declared: Option<Seq<Seq<char>>>) -> Seq<SignalModel> {
    match declared {
        Option::None => Seq::empty(),
        Option::Some(t) => t.map_values(|n: Seq<char>| SignalModel::EnvChanged(feature_env_name(n))),
    }
}

/// Emits one environment-variable watch signal per tracked feature, in
/// declaration order, regardless of the variant's ambient features and of
/// each feature's current value, so that later toggling invalidates the
/// build.
pub fn emit_feature_signals(declared: &Option<Vec<String>>, sink: &mut SignalSink)
    ensures
        signal_models(final(sink).signals@) == signal_models(old(sink).signals@)
            + feature_signal_models(tracked_set_views(*declared)),
{
    match declared {
        Option::None => {
            proof {
                assert(signal_models(sink.signals@) + Seq::<SignalModel>::empty() =~= signal_models(
                    sink.signals@,
                ));
            }
        },
        Option::Some(t) => {
            let ghost whole = feature_signal_models(Option::Some(tracked_views(t@)));
            let mut i: usize = 0;
            while i < t.len()
                invariant
                    declared matches Option::Some(tb) && tb@ == t@,
                    whole == feature_signal_models(Option::Some(tracked_views(t@))),
                    i <= t.len(),
                    signal_models(sink.signals@) == signal_models(old(sink).signals@)
                        + whole.subrange(0, i as int),
                decreases t.len() - i,
            {
                let var = String::from_str("BUILDSYS_VARIANT_IMAGE_FEATURE_").concat(t[i].as_str());
                let ghost before = sink.signals@;
                sink.emit(DependencySignal::EnvChanged(var));
                proof {
                    assert(whole.subrange(0, i + 1 as int).drop_last() =~= whole.subrange(
                        0,
                        i as int,
                    ));
                    assert(tracked_views(t@)[i as int] == t@[i as int]@);
                    assert(whole[i as int] == SignalModel::EnvChanged(feature_env_name(t@[i as int]@)));
                    assert(signal_models(sink.signals@) =~= signal_models(before).push(
                        SignalModel::EnvChanged(var@),
                    ));
                    assert(signal_models(sink.signals@) =~= signal_models(old(sink).signals@)
                        + whole.subrange(0, i + 1 as int));
                }
                i += 1;
            }
            proof {
                assert(whole.subrange(0, whole.len() as int) =~= whole);
            }
        },
    }
}

/// Law: negotiation is idempotent and order-independent in its effect —
/// negotiating the already-negotiated map against the same tracked set
/// changes nothing.
pub proof fn lemma_negotiate_idempotent(
    ambient: Option<Seq<(Seq<char>, bool)>>,
    declared: Option<Seq<Seq<char>>>,
)
    ensures
        spec_negotiate(spec_negotiate(ambient, declared), declared) == spec_negotiate(
            ambient,
            declared,
        ),
{
    match ambient {
        Option::None => {},
        Option::Some(a) => match declared {
            Option::None => {
                assert(retained(Seq::empty(), Seq::empty()) =~= Seq::<(Seq<char>, bool)>::empty());
            },
            Option::Some(t) => {
                lemma_retained_all_tracked(retained(a, t), t);
            },
        },
    }
}

/// Retaining a map every entry of which is already tracked changes nothing.
proof fn lemma_retained_all_tracked(s: Seq<(Seq<char>, bool)>, t: Seq<Seq<char>>)
    requires
        forall|i: int| 0 <= i < s.len() ==> t.contains(#[trigger] s[i].0),
    ensures
        retained(s, t) == s,
    decreases s.len(),
{
    reveal_with_fuel(Seq::filter, 2);
    if s.len() == 0 {
        assert(retained(s, t) =~= s);
    } else {
        lemma_retained_all_tracked(s.drop_last(), t);
        assert(s[s.len() - 1] == s.last());
        assert(retained(s, t) =~= retained(s.drop_last(), t).push(s.last()));
        assert(retained(s, t) =~= s);
    }
}

/// Law: the negotiated result is the ambient map restricted to tracked
/// names — every retained entry occurs in the ambient map and its name is
/// tracked; an absent tracked set gives the empty map; an absent ambient
/// map gives an absent result.
pub proof fn lemma_negotiate_subset(
    ambient: Option<Seq<(Seq<char>, bool)>>,
    declared: Option<Seq<Seq<char>>>,
)
    ensures
        ambient is None ==> spec_negotiate(ambient, declared) is None,
        ambient is Some && declared is None ==> spec_negotiate(ambient, declared) == Option::Some(
            Seq::<(Seq<char>, bool)>::empty(),
        ),
        ambient is Some && declared is Some ==> {
            let r = spec_negotiate(ambient, declared)->0;
            forall|i: int|
                0 <= i < r.len() ==> ambient->0.contains(#[trigger] r[i]) && declared->0.contains(
                    r[i].0,
                )
        },
{
    if ambient is Some && declared is Some {
        lemma_retained_in_ambient(ambient->0, declared->0);
    }
}

/// Law: a feature name never appears twice within a feature map — if the
/// ambient map holds each name once, so does the negotiated map.
pub proof fn lemma_negotiate_distinct(
    ambient: Option<Seq<(Seq<char>, bool)>>,
    declared: Option<Seq<Seq<char>>>,
)
    requires
        ambient matches Option::Some(a) ==> forall|i: int, j: int|
            0 <= i < j < a.len() ==> (#[trigger] a[i]).0 != (#[trigger] a[j]).0,
    ensures
        spec_negotiate(ambient, declared) matches Option::Some(r) ==> forall|i: int, j: int|
            0 <= i < j < r.len() ==> (#[trigger] r[i]).0 != (#[trigger] r[j]).0,
{
    if ambient is Some && declared is Some {
        lemma_retained_distinct(ambient->0, declared->0);
    }
}

/// Retention keeps names unique.
proof fn lemma_retained_distinct(a: Seq<(Seq<char>, bool)>, t: Seq<Seq<char>>)
    requires
        forall|i: int, j: int| 0 <= i < j < a.len() ==> (#[trigger] a[i]).0 != (#[trigger] a[j]).0,
    ensures
        forall|i: int, j: int|
            0 <= i < j < retained(a, t).len() ==> (#[trigger] retained(a, t)[i]).0 != (
            #[trigger] retained(a, t)[j]).0,
    decreases a.len(),
{
    reveal_with_fuel(Seq::filter, 2);
    if a.len() > 0 {
        let pre = a.drop_last();
        lemma_retained_distinct(pre, t);
        lemma_retained_in_ambient(pre, t);
        assert forall|i: int, j: int|
            0 <= i < j < retained(a, t).len() implies (#[trigger] retained(a, t)[i]).0 != (
            #[trigger] retained(a, t)[j]).0 by {
            if j < retained(pre, t).len() {
                assert(retained(a, t)[i] == retained(pre, t)[i]);
                assert(retained(a, t)[j] == retained(pre, t)[j]);
            } else if j == retained(pre, t).len() && retained(a, t).len() > retained(
                pre,
                t,
            ).len() {
                assert(retained(a, t)[j] == a.last());
                let x = retained(pre, t)[i];
                assert(pre.contains(x));
                let k = choose|k: int| 0 <= k < pre.len() && pre[k] == x;
                assert(a[k] == x);
                assert(a[a.len() - 1] == a.last());
                assert(retained(a, t)[i] == x);
            }
        }
    }
}

/// Every retained entry occurs in the ambient map and its name is in the
/// declared set.
proof fn lemma_retained_in_ambient(a: Seq<(Seq<char>, bool)>, t: Seq<Seq<char>>)
    ensures
        forall|i: int|
            0 <= i < retained(a, t).len() ==> a.contains(#[trigger] retained(a, t)[i])
                && t.contains(retained(a, t)[i].0),
    decreases a.len(),
{
    reveal_with_fuel(Seq::filter, 2);
    if a.len() > 0 {
        let pre = a.drop_last();
        lemma_retained_in_ambient(pre, t);
        assert forall|i: int|
            0 <= i < retained(a, t).len() implies a.contains(#[trigger] retained(a, t)[i])
            && t.contains(retained(a, t)[i].0) by {
            if i < retained(pre, t).len() {
                let x = retained(pre, t)[i];
                assert(pre.contains(x));
                let j = choose|j: int| 0 <= j < pre.len() && pre[j] == x;
                assert(a[j] == x);
                assert(retained(a, t)[i] == x);
            } else {
                assert(retained(a, t)[i] == a.last());
                assert(a[a.len() - 1] == a.last());
            }
        }
    }
}

} // verus!
