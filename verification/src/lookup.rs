//! Feature/label index lookup tables.
//!
//! A lookup table numbers features consecutively from `1`; `0` is the null
//! index returned for unknown features.  `MutableLookupTable` assigns fresh
//! numbers on demand while `LookupTable` is frozen.

use vstd::prelude::*;
use crate::text::str_eq;

verus! {

/// A feature that lookup tables can compare and copy.
pub trait Feature: Sized {
    /// The equivalence the tables use to compare features.
    spec fn same(&self, other: &Self) -> bool;

    /// Decide the equivalence.
    fn is_same(&self, other: &Self) -> (r: bool)
        ensures
            r == self.same(other),
    ;

    /// An owned copy of the feature.
    fn dup(&self) -> (r: Self)
        ensures
            r == *self,
            r.same(self),
    ;
}

impl Feature for char {
    open spec fn same(&self, other: &Self) -> bool {
        *self == *other
    }

    fn is_same(&self, other: &Self) -> (r: bool) {
        *self == *other
    }

    fn dup(&self) -> (r: Self) {
        *self
    }
}

impl Feature for String {
    open spec fn same(&self, other: &Self) -> bool {
        self@ == other@
    }

    fn is_same(&self, other: &Self) -> (r: bool) {
        str_eq(self.as_str(), other.as_str())
    }

    fn dup(&self) -> (r: Self) {
        self.clone()
    }
}

/// The index of the first feature of `items`, from position `i` on, that is
/// the same as `f`.
pub open spec fn feature_index<T: Feature>(items: Seq<T>, f: T, i: int) -> Option<int>
    decreases items.len() - i,
{
    if i < 0 || i >= items.len() {
        None
    } else if items[i].same(&f) {
        Some(i)
    } else {
        feature_index(items, f, i + 1)
    }
}

/// If entry `e` is the same as `f` and no earlier entry from `j` on is, the
/// search from `j` finds `e`.
pub proof fn lemma_feature_index_is<T: Feature>(items: Seq<T>, f: T, j: int, e: int)
    requires
        0 <= j <= e < items.len(),
        items[e].same(&f),
        forall|k: int| j <= k < e ==> !(#[trigger] items[k]).same(&f),
    ensures
        feature_index(items, f, j) == Some(e),
    decreases e - j,
{
    if j < e {
        lemma_feature_index_is(items, f, j + 1, e);
    }
}

/// If no entry from `j` on is the same as `f`, the search from `j` finds
/// nothing.
pub proof fn lemma_feature_index_none<T: Feature>(items: Seq<T>, f: T, j: int)
    requires
        0 <= j <= items.len(),
        forall|k: int| j <= k < items.len() ==> !(#[trigger] items[k]).same(&f),
    ensures
        feature_index(items, f, j) is None,
    decreases items.len() - j,
{
    if j < items.len() {
        lemma_feature_index_none(items, f, j + 1);
    }
}

/// Feature index lookup.
pub trait Lookup<T> {
    /// The result a lookup of `feature` returns.
    spec fn lookup_result(&self, feature: T) -> Option<usize>;

    /// The features held after a lookup of `feature`.
    spec fn contents_after(&self, feature: T) -> Seq<T>;

    /// The features currently held, in numbering order.
    spec fn contents(&self) -> Seq<T>;

    /// Look up a feature index.
    fn lookup(&mut self, feature: &T) -> (r: Option<usize>)
        ensures
            r == old(self).lookup_result(*feature),
            final(self).contents() == old(self).contents_after(*feature),
    ;

    /// The null index, reserved for unknown features.
    fn null(&self) -> (r: usize)
        ensures
            r == 0,
    ;
}

/// A lookup table that assigns a fresh number to every new feature.
pub struct MutableLookupTable<T: Feature> {
    items: Vec<T>,
}

impl<T: Feature> View for MutableLookupTable<T> {
    type V = Seq<T>;

    closed spec fn view(&self) -> Seq<T> {
        self.items@
    }
}

impl<T: Feature> MutableLookupTable<T> {
    /// An empty table; the first feature will be numbered `1`.
    pub fn new() -> (r: Self)
        ensures
            r@ == Seq::<T>::empty(),
    {
        MutableLookupTable { items: Vec::new() }
    }
}

impl<T: Feature> Lookup<T> for MutableLookupTable<T> {
    open spec fn lookup_result(&self, feature: T) -> Option<usize> {
        match feature_index(self@, feature, 0) {
            Some(j) => Some((j + 1) as usize),
            None => if self@.len() < usize::MAX {
                Some((self@.len() + 1) as usize)
            } else {
                None
            },
        }
    }

    open spec fn contents_after(&self, feature: T) -> Seq<T> {
        match feature_index(self@, feature, 0) {
            Some(j) => self@,
            None => if self@.len() < usize::MAX {
                self@.push(feature)
            } else {
                self@
            },
        }
    }

    open spec fn contents(&self) -> Seq<T> {
        self@
    }

    /// The number of `feature`, assigning the next free number if the
    /// feature is new.
    fn lookup(&mut self, feature: &T) -> (r: Option<usize>) {
        let n = self.items.len();
        let mut i: usize = 0;
        while i < n
            invariant
                i <= n,
                n == self.items@.len(),
                self@ == old(self)@,
                self.items@ == old(self).items@,
                forall|k: int| 0 <= k < i ==> !(#[trigger] self.items@[k]).same(feature),
            decreases n - i,
        {
            if self.items[i].is_same(feature) {
                proof {
                    lemma_feature_index_is(self@, *feature, 0, i as int);
                }
                return Some(i + 1);
            }
            i = i + 1;
        }
        proof {
            lemma_feature_index_none(self@, *feature, 0);
        }
        if n < usize::MAX {
            self.items.push(feature.dup());
            Some(n + 1)
        } else {
            None
        }
    }

    fn null(&self) -> (r: usize) {
        0
    }
}

/// A frozen lookup table: unknown features stay unknown.
pub struct LookupTable<T: Feature> {
    items: Vec<T>,
}

impl<T: Feature> View for LookupTable<T> {
    type V = Seq<T>;

    closed spec fn view(&self) -> Seq<T> {
        self.items@
    }
}

impl<T: Feature> LookupTable<T> {
    /// The number of `feature`, or nothing if the table does not hold it.
    pub fn get(&self, feature: &T) -> (r: Option<usize>)
        ensures
            match r {
                Some(v) => v >= 1 && feature_index(self@, *feature, 0) == Some(v - 1),
                None => feature_index(self@, *feature, 0) is None,
            },
    {
        let n = self.items.len();
        let mut i: usize = 0;
        while i < n
            invariant
                i <= n,
                n == self.items@.len(),
                forall|k: int| 0 <= k < i ==> !(#[trigger] self.items@[k]).same(feature),
            decreases n - i,
        {
            if self.items[i].is_same(feature) {
                proof {
                    lemma_feature_index_is(self@, *feature, 0, i as int);
                }
                return Some(i + 1);
            }
            i = i + 1;
        }
        proof {
            lemma_feature_index_none(self@, *feature, 0);
        }
        None
    }
}

impl<T: Feature> Lookup<T> for LookupTable<T> {
    open spec fn lookup_result(&self, feature: T) -> Option<usize> {
        match feature_index(self@, feature, 0) {
            Some(j) => Some((j + 1) as usize),
            None => None,
        }
    }

    open spec fn contents_after(&self, feature: T) -> Seq<T> {
        self@
    }

    open spec fn contents(&self) -> Seq<T> {
        self@
    }

    fn lookup(&mut self, feature: &T) -> (r: Option<usize>) {
        self.get(feature)
    }

    fn null(&self) -> (r: usize) {
        0
    }
}

impl<T: Feature> From<MutableLookupTable<T>> for LookupTable<T> {
    /// Freeze a mutable table, keeping its numbering.
    fn from(t: MutableLookupTable<T>) -> (r: LookupTable<T>) {
        LookupTable { items: t.items }
    }
}

impl<T: Feature> vstd::std_specs::convert::FromSpecImpl<MutableLookupTable<T>> for LookupTable<T> {
    open spec fn obeys_from_spec() -> bool {
        true
    }

    closed spec fn from_spec(t: MutableLookupTable<T>) -> LookupTable<T> {
        LookupTable { items: t.items }
    }
}

/// Freezing preserves the numbering: the table frozen from a mutable
/// table holds exactly the features the mutable table held, in order, so
/// every feature keeps its number and no new number is ever assigned.
pub proof fn lemma_freeze_keeps_numbering<T: Feature>(t: MutableLookupTable<T>)
    ensures
        <LookupTable<T> as vstd::std_specs::convert::FromSpec<MutableLookupTable<T>>>::from_spec(
            t,
        )@ == t@,
{
}

/// An optional boxed frozen lookup table.
pub struct BoxedLookup<T: Feature>(Option<Box<LookupTable<T>>>);

impl<T: Feature> View for BoxedLookup<T> {
    type V = Option<Seq<T>>;

    closed spec fn view(&self) -> Option<Seq<T>> {
        match self.0 {
            Some(b) => Some(b@),
            None => None,
        }
    }
}

impl<T: Feature> BoxedLookup<T> {
    /// Construct a boxed lookup from a lookup table.
    pub fn new(lookup: LookupTable<T>) -> (r: Self)
        ensures
            r@ == Some(lookup@),
    {
        BoxedLookup(Some(Box::new(lookup)))
    }

    /// Get the lookup table as a reference.
    pub fn as_ref(&self) -> (r: Option<&LookupTable<T>>)
        ensures
            self@ is None ==> r is None,
            self@ matches Some(s) ==> r matches Some(t) && t@ == s,
    {
        match &self.0 {
            Some(b) => Some(b),
            None => None,
        }
    }
}

impl<T: Feature> Default for BoxedLookup<T> {
    /// The empty boxed lookup, holding no table.
    fn default() -> (r: Self)
        ensures
            r@ is None,
    {
        BoxedLookup(None)
    }
}

} // verus!
