//! Dependency signals: the protocol by which the core tells the enclosing
//! incremental build system which inputs must invalidate this build.

use vstd::prelude::*;
use vstd::string::StringExecFns;

verus! {

/// One cache-invalidation trigger: a file path to watch, or an environment
/// variable to watch.
#[derive(Debug, Clone, PartialEq, Eq)]
pub enum DependencySignal {
    FileChanged(String),
    EnvChanged(String),
}

/// The mathematical model of one signal: which kind of input is watched,
/// and the watched name, as a sequence of characters.
pub enum SignalModel {
    FileChanged(Seq<char>),
    EnvChanged(Seq<char>),
}

/// The models of a signal stream, in order.
pub open spec fn signal_models(s: Seq<DependencySignal>) -> Seq<SignalModel> {
    s.map_values(|d: DependencySignal| d.model())
}

impl DependencySignal {
    /// The model of this signal.
    pub open spec fn model(self) -> SignalModel {
        match self {
            DependencySignal::FileChanged(p) => SignalModel::FileChanged(p@),
            DependencySignal::EnvChanged(v) => SignalModel::EnvChanged(v@),
        }
    }

    /// The line of the textual protocol that instructs the enclosing build
    /// system to watch this input.
    pub open spec fn line(self) -> Seq<char> {
        match self {
            DependencySignal::FileChanged(p) => "cargo:rerun-if-changed="@ + p@,
            DependencySignal::EnvChanged(v) => "cargo:rerun-if-env-changed="@ + v@,
        }
    }

    /// Renders this signal as its protocol line.
    pub fn render(&self) -> (r: String)
        ensures
            r@ == self.line(),
    {
        match self {
            DependencySignal::FileChanged(p) => String::from_str("cargo:rerun-if-changed=").concat(
                p.as_str(),
            ),
            DependencySignal::EnvChanged(v) => String::from_str(
                "cargo:rerun-if-env-changed=",
            ).concat(v.as_str()),
        }
    }
}

/// The accumulated dependency-signal stream.  It is an explicit sink handed
/// to each component, not ambient process state, so the negotiation and merge
/// logic stays independently checkable.  Signals are appended in order and
/// never deduplicated here.
pub struct SignalSink {
    pub signals: Vec<DependencySignal>,
}

impl SignalSink {
    /// A sink with no signals recorded yet.
    pub fn new() -> (r: SignalSink)
        ensures
            r.signals@ == Seq::<DependencySignal>::empty(),
    {
        SignalSink { signals: Vec::new() }
    }

    /// Records one signal at the end of the stream.
    pub fn emit(&mut self, s: DependencySignal)
        ensures
            final(self).signals@ == old(self).signals@.push(s),
    {
        self.signals.push(s);
    }

    /// Records a file-watch signal for every path in `paths`, in order.
    pub fn emit_paths(&mut self, paths: Vec<String>)
        ensures
            final(self).signals@ == old(self).signals@ + paths@.map_values(
                |p: String| DependencySignal::FileChanged(p),
            ),
    {
        let ghost all = paths@;
        let mut paths = paths;
        let mut i: usize = 0;
        while i < paths.len()
            invariant
                paths@ == all,
                i <= all.len(),
                self.signals@ == old(self).signals@ + all.subrange(0, i as int).map_values(
                    |p: String| DependencySignal::FileChanged(p),
                ),
            decreases all.len() - i,
        {
            let p = paths[i].clone();
            assert(p == all[i as int]);
            self.emit(DependencySignal::FileChanged(p));
            proof {
                assert(all.subrange(0, i + 1 as int).drop_last() =~= all.subrange(0, i as int));
                assert(all.subrange(0, i + 1 as int).map_values(
                    |q: String| DependencySignal::FileChanged(q),
                ) =~= all.subrange(0, i as int).map_values(
                    |q: String| DependencySignal::FileChanged(q),
                ).push(DependencySignal::FileChanged(all[i as int])));
            }
            i += 1;
        }
        proof {
            assert(all.subrange(0, all.len() as int) =~= all);
        }
    }
}

} // verus!
