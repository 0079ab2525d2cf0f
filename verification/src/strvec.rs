//! Helpers over vectors of strings compared by their character views.

use vstd::prelude::*;

verus! {

/// Some element of `s` has view `x`.
pub open spec fn contains_view(s: Seq<String>, x: Seq<char>) -> bool {
    exists|i: int| 0 <= i < s.len() && s[i]@ == x
}

/// No two elements of `s` share a view.
pub open spec fn nodup_views(s: Seq<String>) -> bool {
    forall|i: int, j: int| 0 <= i < j < s.len() ==> s[i]@ != s[j]@
}

/// No element of `a` shares a view with an element of `b`.
pub open spec fn views_disjoint(a: Seq<String>, b: Seq<String>) -> bool {
    forall|i: int, j: int| 0 <= i < a.len() && 0 <= j < b.len() ==> a[i]@ != b[j]@
}

/// `s` with its first element of view `x` removed (`s` itself when none is).
pub open spec fn remove_view(s: Seq<String>, x: Seq<char>) -> Seq<String>
    decreases s.len(),
{
    if s.len() == 0 {
        Seq::empty()
    } else if s[0]@ == x {
        s.drop_first()
    } else {
        seq![s[0]] + remove_view(s.drop_first(), x)
    }
}

pub proof fn lemma_remove_view_absent(s: Seq<String>, x: Seq<char>)
    requires
        !contains_view(s, x),
    ensures
        remove_view(s, x) =~= s,
    decreases s.len(),
{
    if s.len() > 0 {
        assert(s[0]@ != x);
        assert(forall|i: int| 0 <= i < s.drop_first().len() ==> s.drop_first()[i] == s[i + 1]);
        lemma_remove_view_absent(s.drop_first(), x);
    }
}

pub proof fn lemma_remove_view_at(s: Seq<String>, x: Seq<char>, i: int)
    requires
        0 <= i < s.len(),
        s[i]@ == x,
        forall|j: int| 0 <= j < i ==> s[j]@ != x,
    ensures
        remove_view(s, x) =~= s.remove(i),
    decreases i,
{
    if i == 0 {
        assert(remove_view(s, x) =~= s.drop_first());
        assert(s.remove(0) =~= s.drop_first());
    } else {
        assert(s[0]@ != x);
        let t = s.drop_first();
        assert(t[i - 1]@ == x);
        assert(forall|j: int| 0 <= j < i - 1 ==> t[j] == s[j + 1] && t[j]@ != x);
        lemma_remove_view_at(t, x, i - 1);
        assert(remove_view(s, x) =~= seq![s[0]] + t.remove(i - 1));
        assert(s.remove(i) =~= seq![s[0]] + t.remove(i - 1));
    }
}

/// Find the first element of `v` whose view is that of `x`.
pub fn find_view(v: &Vec<String>, x: &String) -> (r: Option<usize>)
    ensures
        match r {
            Some(i) => i < v@.len() && v@[i as int]@ == x@
                && forall|j: int| 0 <= j < i ==> v@[j]@ != x@,
            None => !contains_view(v@, x@),
        },
{
    let mut i: usize = 0;
    while i < v.len()
        invariant
            i <= v@.len(),
            forall|j: int| 0 <= j < i ==> v@[j]@ != x@,
        decreases v@.len() - i,
    {
        if v[i].eq(x) {
            return Some(i);
        }
        i = i + 1;
    }
    None
}

/// Does some element of `v` have the view of `x`?
pub fn contains_str(v: &Vec<String>, x: &String) -> (r: bool)
    ensures
        r == contains_view(v@, x@),
{
    match find_view(v, x) {
        Some(_) => true,
        None => false,
    }
}

} // verus!
