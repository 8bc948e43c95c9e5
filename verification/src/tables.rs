//! Lists of named items, looked up by name.

use vstd::prelude::*;
use crate::ast::{
    CapDecl, ConstDecl, EnumDecl, EnumVariant, FnDef, Import, IndexDecl,
    InterfaceDecl, InterfaceMethodSig, ModifierDecl, Param, StateDecl, StructDecl, StructField,
};
use crate::bc::{BcFn, EnumShape, StructShape};
use crate::text::same;

verus! {

/// An item with a name.
pub trait Named {
    spec fn nm(&self) -> Seq<char>;

    fn name_str(&self) -> (r: &str)
        ensures
            r@ == self.nm(),
    ;
}

/// The last place of a name: a later item hides an earlier one.
pub open spec fn place<T: Named>(s: Seq<T>, name: Seq<char>) -> Option<int>
    decreases s.len(),
{
    if s.len() == 0 {
        None
    } else if s.last().nm() == name {
        Some(s.len() - 1)
    } else {
        place(s.drop_last(), name)
    }
}

/// The first place of a name.
pub open spec fn first_place<T: Named>(s: Seq<T>, name: Seq<char>) -> Option<int>
    decreases s.len(),
{
    if s.len() == 0 {
        None
    } else {
        match first_place(s.drop_last(), name) {
            Some(k) => Some(k),
            None => if s.last().nm() == name {
                Some(s.len() - 1)
            } else {
                None
            },
        }
    }
}

/// The names in a list.
pub open spec fn name_set(s: Seq<String>) -> Set<Seq<char>> {
    Set::new(|name: Seq<char>| place(s, name) is Some)
}

/// What [`place`] finds bears the name, and nothing after it does.
pub proof fn lemma_place<T: Named>(s: Seq<T>, name: Seq<char>)
    ensures
        match place(s, name) {
            Some(k) => 0 <= k < s.len() && s[k].nm() == name && forall|j: int|
                k < j < s.len() ==> (#[trigger] s[j]).nm() != name,
            None => forall|j: int| 0 <= j < s.len() ==> (#[trigger] s[j]).nm() != name,
        },
    decreases s.len(),
{
    if s.len() > 0 && s.last().nm() != name {
        lemma_place(s.drop_last(), name);
        assert forall|j: int| 0 <= j < s.len() - 1 implies s[j] == s.drop_last()[j] by {}
    }
}

/// What [`first_place`] finds bears the name, and nothing before it does.
pub proof fn lemma_first_place<T: Named>(s: Seq<T>, name: Seq<char>)
    ensures
        match first_place(s, name) {
            Some(k) => 0 <= k < s.len() && s[k].nm() == name && forall|j: int|
                0 <= j < k ==> (#[trigger] s[j]).nm() != name,
            None => forall|j: int| 0 <= j < s.len() ==> (#[trigger] s[j]).nm() != name,
        },
    decreases s.len(),
{
    if s.len() > 0 {
        lemma_first_place(s.drop_last(), name);
        assert forall|j: int| 0 <= j < s.len() - 1 implies s[j] == s.drop_last()[j] by {}
    }
}

/// The last place of a name.
pub fn find_last<T: Named>(v: &Vec<T>, name: &str) -> (r: Option<usize>)
    ensures
        match r {
            Some(k) => place(v@, name@) == Some(k as int) && k < v@.len() && v@[k as int].nm() == name@,
            None => place(v@, name@) is None,
        },
{
    let mut i: usize = v.len();
    assert(v@.take(i as int) =~= v@);
    while i > 0
        invariant
            i <= v@.len(),
            place(v@, name@) == place(v@.take(i as int), name@),
        decreases i,
    {
        i = i - 1;
        assert(v@.take(i as int + 1).drop_last() =~= v@.take(i as int));
        if same(v[i].name_str(), name) {
            return Some(i);
        }
    }
    None
}

/// The first place of a name.
pub fn find_first<T: Named>(v: &Vec<T>, name: &str) -> (r: Option<usize>)
    ensures
        match r {
            Some(k) => first_place(v@, name@) == Some(k as int) && k < v@.len() && v@[k as int].nm()
                == name@,
            None => first_place(v@, name@) is None,
        },
{
    let mut i: usize = 0;
    assert(v@.take(0) =~= Seq::empty());
    while i < v.len()
        invariant
            i <= v@.len(),
            first_place(v@.take(i as int), name@) is None,
        decreases v@.len() - i,
    {
        let ghost t = v@.take(i as int + 1);
        assert(t.drop_last() =~= v@.take(i as int));
        if same(v[i].name_str(), name) {
            proof {
                lemma_first_stays(v@, name@, (i + 1) as nat);
            }
            return Some(i);
        }
        i = i + 1;
    }
    assert(v@.take(i as int) =~= v@);
    None
}

proof fn lemma_first_stays<T: Named>(s: Seq<T>, name: Seq<char>, n: nat)
    requires
        n <= s.len(),
        first_place(s.take(n as int), name) is Some,
    ensures
        first_place(s, name) == first_place(s.take(n as int), name),
    decreases s.len(),
{
    if n < s.len() {
        assert(s.drop_last().take(n as int) =~= s.take(n as int));
        lemma_first_stays(s.drop_last(), name, n);
    } else {
        assert(s.take(n as int) =~= s);
    }
}

/// A name by itself.
impl Named for String {
    open spec fn nm(&self) -> Seq<char> {
        self@
    }

    fn name_str(&self) -> (r: &str) {
        self.as_str()
    }
}

/// A pair is called by its first part.
impl<T> Named for (String, T) {
    open spec fn nm(&self) -> Seq<char> {
        self.0@
    }

    fn name_str(&self) -> (r: &str) {
        self.0.as_str()
    }
}

impl Named for StateDecl {
    open spec fn nm(&self) -> Seq<char> {
        self.name@
    }

    fn name_str(&self) -> (r: &str) {
        self.name.as_str()
    }
}

impl Named for FnDef {
    open spec fn nm(&self) -> Seq<char> {
        self.name@
    }

    fn name_str(&self) -> (r: &str) {
        self.name.as_str()
    }
}

impl Named for Import {
    open spec fn nm(&self) -> Seq<char> {
        self.name@
    }

    fn name_str(&self) -> (r: &str) {
        self.name.as_str()
    }
}

impl Named for StructDecl {
    open spec fn nm(&self) -> Seq<char> {
        self.name@
    }

    fn name_str(&self) -> (r: &str) {
        self.name.as_str()
    }
}

impl Named for CapDecl {
    open spec fn nm(&self) -> Seq<char> {
        self.name@
    }

    fn name_str(&self) -> (r: &str) {
        self.name.as_str()
    }
}

impl Named for EnumDecl {
    open spec fn nm(&self) -> Seq<char> {
        self.name@
    }

    fn name_str(&self) -> (r: &str) {
        self.name.as_str()
    }
}

impl Named for EnumVariant {
    open spec fn nm(&self) -> Seq<char> {
        self.name@
    }

    fn name_str(&self) -> (r: &str) {
        self.name.as_str()
    }
}

impl Named for ConstDecl {
    open spec fn nm(&self) -> Seq<char> {
        self.name@
    }

    fn name_str(&self) -> (r: &str) {
        self.name.as_str()
    }
}

impl Named for InterfaceDecl {
    open spec fn nm(&self) -> Seq<char> {
        self.name@
    }

    fn name_str(&self) -> (r: &str) {
        self.name.as_str()
    }
}

impl Named for InterfaceMethodSig {
    open spec fn nm(&self) -> Seq<char> {
        self.name@
    }

    fn name_str(&self) -> (r: &str) {
        self.name.as_str()
    }
}

impl Named for ModifierDecl {
    open spec fn nm(&self) -> Seq<char> {
        self.name@
    }

    fn name_str(&self) -> (r: &str) {
        self.name.as_str()
    }
}

impl Named for Param {
    open spec fn nm(&self) -> Seq<char> {
        self.name@
    }

    fn name_str(&self) -> (r: &str) {
        self.name.as_str()
    }
}

impl Named for StructField {
    open spec fn nm(&self) -> Seq<char> {
        self.name@
    }

    fn name_str(&self) -> (r: &str) {
        self.name.as_str()
    }
}

impl Named for IndexDecl {
    open spec fn nm(&self) -> Seq<char> {
        self.name@
    }

    fn name_str(&self) -> (r: &str) {
        self.name.as_str()
    }
}

impl Named for StructShape {
    open spec fn nm(&self) -> Seq<char> {
        self.name@
    }

    fn name_str(&self) -> (r: &str) {
        self.name.as_str()
    }
}

impl Named for EnumShape {
    open spec fn nm(&self) -> Seq<char> {
        self.name@
    }

    fn name_str(&self) -> (r: &str) {
        self.name.as_str()
    }
}

impl Named for BcFn {
    open spec fn nm(&self) -> Seq<char> {
        self.name@
    }

    fn name_str(&self) -> (r: &str) {
        self.name.as_str()
    }
}

} // verus!
