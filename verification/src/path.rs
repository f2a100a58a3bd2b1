//! Absolute paths, held as their sequence of components.
//!
//! The capability layer never parses paths beyond component-wise prefix
//! comparison, so a path is modelled directly as the list of its
//! `/`-separated components (the leading root is implicit).

use vstd::prelude::*;

verus! {

/// An absolute filesystem path: the sequence of its components.
#[derive(Debug, Clone, PartialEq, Eq, Hash)]
pub struct FsPath {
    pub parts: Vec<String>,
}

impl View for FsPath {
    type V = Seq<Seq<char>>;

    open spec fn view(&self) -> Seq<Seq<char>> {
        self.parts@.map_values(|c: String| c@)
    }
}

/// `p` is a strict ancestor of `k`: strictly shorter, and every component of
/// `p` agrees with the corresponding component of `k`.
pub open spec fn is_strict_prefix(p: Seq<Seq<char>>, k: Seq<Seq<char>>) -> bool {
    p.len() < k.len() && k.take(p.len() as int) == p
}

impl FsPath {
    /// Build a path from its components.
    pub fn new(parts: Vec<String>) -> (p: FsPath)
        ensures
            p@ == parts@.map_values(|c: String| c@),
    {
        FsPath { parts }
    }

    /// The number of components.
    pub fn len(&self) -> (n: usize)
        ensures
            n == self@.len(),
    {
        self.parts.len()
    }

    /// An independent copy of the same path.
    pub fn dup(&self) -> (r: FsPath)
        ensures
            r@ == self@,
    {
        let mut parts: Vec<String> = Vec::new();
        let mut i: usize = 0;
        while i < self.parts.len()
            invariant
                i <= self.parts@.len(),
                parts@.len() == i,
                forall|j: int| 0 <= j < i ==> parts@[j] == self.parts@[j],
            decreases self.parts@.len() - i,
        {
            parts.push(self.parts[i].clone());
            i += 1;
        }
        let r = FsPath { parts };
        proof {
            assert(r@ =~= self@);
        }
        r
    }

    /// Component-wise equality of two paths.
    pub fn eq_path(&self, other: &FsPath) -> (r: bool)
        ensures
            r == (self@ == other@),
    {
        if self.parts.len() != other.parts.len() {
            assert(self@.len() != other@.len());
            return false;
        }
        let mut i: usize = 0;
        while i < self.parts.len()
            invariant
                self.parts@.len() == other.parts@.len(),
                i <= self.parts@.len(),
                forall|j: int| 0 <= j < i ==> self@[j] == other@[j],
            decreases self.parts@.len() - i,
        {
            if !(self.parts[i] == other.parts[i]) {
                assert(self@[i as int] != other@[i as int]);
                return false;
            }
            i += 1;
        }
        proof {
            assert(self@ =~= other@);
        }
        true
    }

    /// Whether `p` names a strict ancestor of this path.
    pub fn has_strict_prefix(&self, p: &FsPath) -> (r: bool)
        ensures
            r == is_strict_prefix(p@, self@),
    {
        if p.parts.len() >= self.parts.len() {
            return false;
        }
        let mut i: usize = 0;
        while i < p.parts.len()
            invariant
                p.parts@.len() < self.parts@.len(),
                i <= p.parts@.len(),
                forall|j: int| 0 <= j < i ==> self@[j] == p@[j],
            decreases p.parts@.len() - i,
        {
            if !(self.parts[i] == p.parts[i]) {
                assert(self@.take(p@.len() as int)[i as int] != p@[i as int]);
                return false;
            }
            i += 1;
        }
        proof {
            assert(self@.take(p@.len() as int) =~= p@);
        }
        true
    }

    /// The path made of the first `n` components of this one.
    pub fn take_prefix(&self, n: usize) -> (r: FsPath)
        requires
            n <= self@.len(),
        ensures
            r@ == self@.take(n as int),
    {
        let mut parts: Vec<String> = Vec::new();
        let mut i: usize = 0;
        while i < n
            invariant
                n <= self.parts@.len(),
                i <= n,
                parts@.len() == i,
                forall|j: int| 0 <= j < i ==> parts@[j] == self.parts@[j],
            decreases n - i,
        {
            parts.push(self.parts[i].clone());
            i += 1;
        }
        let r = FsPath { parts };
        proof {
            assert(r@ =~= self@.take(n as int));
        }
        r
    }
}

} // verus!
