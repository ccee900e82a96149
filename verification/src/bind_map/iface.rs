//! Does this interface name exist on this host?
//!
//! Injected rather than called directly so the validator stays pure and the
//! unknown-iface rejection is testable without touching the machine's real
//! network configuration.
use vstd::prelude::*;

use crate::text::{chars_eq, chars_of};

verus! {

/// Answers interface-existence questions for bind-map validation.
///
/// An implementation may consult the live host, so nothing is assumed about
/// its answers: validation is specified for whatever they turn out to be.
pub trait IfaceOracle {
    /// `present` is an answer this oracle may give about the interface named
    /// `iface`. A relation, not a function: the host's answer may change
    /// between two calls. An implementation that says nothing of its
    /// answers allows every answer.
    open spec fn may_answer(&self, iface: Seq<char>, present: bool) -> bool {
        true
    }

    /// True iff an interface with this exact name exists right now.
    fn iface_exists(&self, iface: &str) -> (present: bool)
        ensures
            self.may_answer(iface@, present),
    ;
}

/// An oracle over a fixed, known set of names.
///
/// For tests, and for any embedder that already knows its interface set and
/// does not want a syscall per row.
#[derive(Debug, Clone)]
pub struct StaticIfaces {
    names: Vec<String>,
}

impl StaticIfaces {
    /// The names this oracle knows.
    pub closed spec fn known(&self) -> Seq<Seq<char>> {
        Seq::new(self.names@.len(), |i: int| self.names@[i]@)
    }

    pub fn new(names: &[&str]) -> (r: StaticIfaces)
        ensures
            r.known().len() == names@.len(),
            forall|k: int| 0 <= k < names@.len() ==> #[trigger] r.known()[k] == names@[k]@,
    {
        let mut v: Vec<String> = Vec::new();
        let mut i: usize = 0;
        while i < names.len()
            invariant
                i <= names@.len(),
                v@.len() == i,
                forall|k: int| 0 <= k < i ==> #[trigger] v@[k]@ == names@[k]@,
            decreases names@.len() - i,
        {
            v.push(names[i].to_owned());
            i += 1;
        }
        StaticIfaces { names: v }
    }

    /// Whether the name is one of the known names.
    pub fn contains(&self, iface: &str) -> (r: bool)
        ensures
            r == self.known().contains(iface@),
    {
        let want = chars_of(iface);
        let mut i: usize = 0;
        while i < self.names.len()
            invariant
                i <= self.names@.len(),
                want@ == iface@,
                forall|k: int| 0 <= k < i ==> #[trigger] self.names@[k]@ != iface@,
            decreases self.names@.len() - i,
        {
            let have = chars_of(self.names[i].as_str());
            if chars_eq(&have, &want) {
                assert(self.known()[i as int] == iface@);
                return true;
            }
            i += 1;
        }
        proof {
            if self.known().contains(iface@) {
                let k = choose|k: int| 0 <= k < self.known().len() && self.known()[k] == iface@;
                assert(self.names@[k]@ == iface@);
            }
        }
        false
    }
}

impl IfaceOracle for StaticIfaces {
    open spec fn may_answer(&self, iface: Seq<char>, present: bool) -> bool {
        present == self.known().contains(iface)
    }

    fn iface_exists(&self, iface: &str) -> (r: bool)
        ensures
            r == self.known().contains(iface@),
    {
        self.contains(iface)
    }
}

} // verus!
