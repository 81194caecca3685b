//! A key chord paired with the function name it triggers.

use vstd::prelude::*;

verus! {

/// A hotkey chord such as `C-S-b` and the name of the function it triggers.
#[derive(Debug)]
pub struct TKeePair {
    pub key: String,
    pub func: String,
}

impl View for TKeePair {
    type V = (Seq<char>, Seq<char>);

    open spec fn view(&self) -> (Seq<char>, Seq<char>) {
        (self.key@, self.func@)
    }
}

impl Clone for TKeePair {
    fn clone(&self) -> (res: Self)
        ensures
            res == *self,
    {
        TKeePair { key: self.key.clone(), func: self.func.clone() }
    }
}

impl TKeePair {
    /// Pairs the chord `key` with the function name `func`.
    pub fn new(key: &str, func: &str) -> (res: Self)
        ensures
            res.key@ == key@,
            res.func@ == func@,
    {
        TKeePair { key: String::from_str(key), func: String::from_str(func) }
    }
}

/// The views of a sequence of pairs.
pub open spec fn pairs_view(pairs: Seq<TKeePair>) -> Seq<(Seq<char>, Seq<char>)> {
    pairs.map_values(|p: TKeePair| p@)
}

/// An ordered list of key pairs.
#[derive(Debug)]
pub struct TKeePairList(pub Vec<TKeePair>);

impl View for TKeePairList {
    type V = Seq<(Seq<char>, Seq<char>)>;

    open spec fn view(&self) -> Seq<(Seq<char>, Seq<char>)> {
        pairs_view(self.0@)
    }
}

impl Clone for TKeePairList {
    fn clone(&self) -> (res: Self)
        ensures
            res@ == self@,
    {
        let v = self.0.clone();
        proof {
            assert forall|i: int| 0 <= i < v@.len() implies v@[i] == self.0@[i] by {
                assert(cloned::<TKeePair>(self.0[i], v[i]));
            }
            assert(v@ =~= self.0@);
        }
        TKeePairList(v)
    }
}

} // verus!
