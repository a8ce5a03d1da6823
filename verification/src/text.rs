//! Small verified helpers over owned strings and tags.
use vstd::prelude::*;

verus! {

/// A key/value tag in its mathematical form.
pub type TagView = (Seq<char>, Seq<char>);

/// An owned copy of a string slice.
pub fn owned(s: &str) -> (r: String)
    ensures
        r@ == s@,
{
    s.to_owned()
}

/// An owned copy of a string.
pub fn copy_string(s: &String) -> (r: String)
    ensures
        r@ == s@,
{
    s.clone()
}

/// Whether `v` holds a string equal to `s`.
pub fn contains_string(v: &[String], s: &String) -> (b: bool)
    ensures
        b == v.deep_view().contains(s@),
{
    let mut i: usize = 0;
    while i < v.len()
        invariant
            0 <= i <= v.len(),
            forall|j: int| 0 <= j < i ==> v@[j]@ != s@,
        decreases v.len() - i,
    {
        if v[i] == *s {
            assert(v.deep_view()[i as int] == s@);
            return true;
        }
        i += 1;
    }
    assert forall|j: int| 0 <= j < v.deep_view().len() implies v.deep_view()[j] != s@ by {
        assert(v.deep_view()[j] == v@[j]@);
    }
    false
}

/// An owned copy of a vector of strings.
pub fn copy_strings(v: &Vec<String>) -> (r: Vec<String>)
    ensures
        r.deep_view() == v.deep_view(),
{
    let mut r: Vec<String> = Vec::new();
    let mut i: usize = 0;
    while i < v.len()
        invariant
            0 <= i <= v.len(),
            r@.len() == i,
            forall|j: int| 0 <= j < i ==> r@[j]@ == v@[j]@,
        decreases v.len() - i,
    {
        r.push(copy_string(&v[i]));
        i += 1;
    }
    assert(r.deep_view() =~= v.deep_view());
    r
}

/// Whether two tags have the same key and the same value.
pub fn same_tag(a: &(String, String), b: &(String, String)) -> (r: bool)
    ensures
        r == (a.deep_view() == b.deep_view()),
{
    a.0 == b.0 && a.1 == b.1
}

/// An owned copy of a tag.
pub fn copy_tag(t: &(String, String)) -> (r: (String, String))
    ensures
        r.deep_view() == t.deep_view(),
{
    (copy_string(&t.0), copy_string(&t.1))
}

/// Whether `v` holds a tag equal to `t`.
pub fn contains_tag(v: &[(String, String)], t: &(String, String)) -> (b: bool)
    ensures
        b == v.deep_view().contains(t.deep_view()),
{
    let mut i: usize = 0;
    while i < v.len()
        invariant
            0 <= i <= v.len(),
            forall|j: int| 0 <= j < i ==> v@[j].deep_view() != t.deep_view(),
        decreases v.len() - i,
    {
        if same_tag(&v[i], t) {
            assert(v.deep_view()[i as int] == t.deep_view());
            return true;
        }
        i += 1;
    }
    assert forall|j: int| 0 <= j < v.deep_view().len() implies v.deep_view()[j] != t.deep_view() by {
        assert(v.deep_view()[j] == v@[j].deep_view());
    }
    false
}

/// The index of the first tag of `v` equal to `t`, if any.
pub fn position_of_tag(v: &Vec<(String, String)>, t: &(String, String)) -> (r: Option<usize>)
    ensures
        match r {
            Some(i) => i < v@.len() && v.deep_view()[i as int] == t.deep_view()
                && forall|j: int| 0 <= j < i ==> v.deep_view()[j] != t.deep_view(),
            None => !v.deep_view().contains(t.deep_view()),
        },
{
    let mut i: usize = 0;
    while i < v.len()
        invariant
            0 <= i <= v.len(),
            forall|j: int| 0 <= j < i ==> v.deep_view()[j] != t.deep_view(),
        decreases v.len() - i,
    {
        if same_tag(&v[i], t) {
            return Some(i);
        }
        i += 1;
    }
    proof {
        false_not_contains(v.deep_view(), t.deep_view());
    }
    None
}

/// `acc` extended by the strings of `xs` that it does not yet hold, in
/// order (each pushed only the first time it appears).
pub open spec fn append_new(acc: Seq<Seq<char>>, xs: Seq<Seq<char>>) -> Seq<Seq<char>>
    decreases xs.len(),
{
    if xs.len() == 0 {
        acc
    } else {
        let prev = append_new(acc, xs.drop_last());
        if prev.contains(xs.last()) {
            prev
        } else {
            prev.push(xs.last())
        }
    }
}

/// Pushes `x` unless `v` already holds it.
pub fn push_new(v: &mut Vec<String>, x: String)
    ensures
        final(v).deep_view() == (if old(v).deep_view().contains(x@) {
            old(v).deep_view()
        } else {
            old(v).deep_view().push(x@)
        }),
{
    if !contains_string(v, &x) {
        let ghost before = v.deep_view();
        let ghost xv = x@;
        v.push(x);
        assert(v.deep_view() =~= before.push(xv));
    }
}

/// Pushes onto `v` each string of `xs` that `v` does not yet hold.
pub fn extend_new(v: &mut Vec<String>, xs: &Vec<String>)
    ensures
        final(v).deep_view() == append_new(old(v).deep_view(), xs.deep_view()),
{
    let mut m: usize = 0;
    while m < xs.len()
        invariant
            0 <= m <= xs@.len(),
            v.deep_view() == append_new(old(v).deep_view(), xs.deep_view().take(m as int)),
        decreases xs.len() - m,
    {
        assert(xs.deep_view().take(m + 1).drop_last() =~= xs.deep_view().take(m as int));
        push_new(v, copy_string(&xs[m]));
        m += 1;
    }
    assert(xs.deep_view().take(xs@.len() as int) =~= xs.deep_view());
}

proof fn false_not_contains<A>(s: Seq<A>, a: A)
    requires
        forall|j: int| 0 <= j < s.len() ==> s[j] != a,
    ensures
        !s.contains(a),
{
}

} // verus!
