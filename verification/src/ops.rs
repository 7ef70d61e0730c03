//! Operations handed in by the caller.
//!
//! Element arithmetic (on floating-point numbers, on tensors) is done by
//! functions that the caller supplies. The algorithms here say exactly which
//! operation is applied to what, in which order, over the values that those
//! functions compute. A function that is given a list depends on its elements alone.

use vstd::prelude::*;

verus! {

/// Whether `f` accepts every argument and gives one result for each.
pub open spec fn computes<A, R, F: Fn(A) -> R>(f: F) -> bool {
    &&& forall|a: A| #[trigger] f.requires((a,))
    &&& forall|a: A, r1: R, r2: R|
        #[trigger] f.ensures((a,), r1) && #[trigger] f.ensures((a,), r2) ==> r1 == r2
}

/// The result of `f` on `a`.
pub open spec fn value<A, R, F: Fn(A) -> R>(f: F, a: A) -> R {
    choose|r: R| f.ensures((a,), r)
}

/// Applies `f` to `a`.
pub fn apply<A, R, F: Fn(A) -> R>(f: &F, a: A) -> (r: R)
    requires
        computes::<A, R, F>(*f),
    ensures
        r == value::<A, R, F>(*f, a),
{
    f(a)
}

/// Whether `f` accepts every argument; it may give different results for one argument, as a source
/// of random weights does.
pub open spec fn makes<A, R, F: Fn(A) -> R>(f: F) -> bool {
    forall|a: A| #[trigger] f.requires((a,))
}

/// Whether `r` is one of the results of `f` on `a`.
pub open spec fn made<A, R, F: Fn(A) -> R>(f: F, a: A, r: R) -> bool {
    f.ensures((a,), r)
}

/// Makes something of `a`.
pub fn make<A, R, F: Fn(A) -> R>(f: &F, a: A) -> (r: R)
    requires
        makes::<A, R, F>(*f),
    ensures
        made::<A, R, F>(*f, a, r),
{
    f(a)
}

/// Whether `f`, given references, accepts every argument and gives one result for each.
pub open spec fn computes1<A, R, F: Fn(&A) -> R>(f: F) -> bool {
    &&& forall|a: A| #[trigger] f.requires((&a,))
    &&& forall|a: A, r1: R, r2: R|
        #[trigger] f.ensures((&a,), r1) && #[trigger] f.ensures((&a,), r2) ==> r1 == r2
}

/// The result of `f` on references to its arguments.
pub open spec fn value1<A, R, F: Fn(&A) -> R>(f: F, a: A) -> R {
    choose|r: R| f.ensures((&a,), r)
}

/// Applies `f` to references.
pub fn apply1<A, R, F: Fn(&A) -> R>(f: &F, a: &A) -> (r: R)
    requires
        computes1::<A, R, F>(*f),
    ensures
        r == value1::<A, R, F>(*f, *a),
{
    f(a)
}

/// Whether `copy` gives back what it is given.
pub open spec fn copies<S, F: Fn(&S) -> S>(copy: F) -> bool {
    computes1::<S, S, F>(copy) && forall|s: S| #[trigger] value1::<S, S, F>(copy, s) == s
}

/// Copies each element of a list.
pub fn copy_all<P, C: Fn(&P) -> P>(list: &[P], copy: &C) -> (out: Vec<P>)
    requires
        copies::<P, C>(*copy),
    ensures
        out@ == list@,
{
    let mut out: Vec<P> = Vec::with_capacity(list.len());
    let mut i: usize = 0;
    while i < list.len()
        invariant
            i <= list@.len(),
            copies::<P, C>(*copy),
            out@ == list@.take(i as int),
        decreases list@.len() - i,
    {
        out.push(apply1(copy, &list[i]));
        proof {
            assert(out@ =~= list@.take(i + 1));
        }
        i = i + 1;
    }
    proof {
        assert(list@.take(i as int) =~= list@);
    }
    out
}

/// Whether `f`, given references, accepts every argument and gives one result for each.
pub open spec fn computes2<A, B, R, F: Fn(&A, &B) -> R>(f: F) -> bool {
    &&& forall|a: A, b: B| #[trigger] f.requires((&a, &b))
    &&& forall|a: A, b: B, r1: R, r2: R|
        #[trigger] f.ensures((&a, &b), r1) && #[trigger] f.ensures((&a, &b), r2) ==> r1 == r2
}

/// The result of `f` on references to its arguments.
pub open spec fn value2<A, B, R, F: Fn(&A, &B) -> R>(f: F, a: A, b: B) -> R {
    choose|r: R| f.ensures((&a, &b), r)
}

/// Applies `f` to references.
pub fn apply2<A, B, R, F: Fn(&A, &B) -> R>(f: &F, a: &A, b: &B) -> (r: R)
    requires
        computes2::<A, B, R, F>(*f),
    ensures
        r == value2::<A, B, R, F>(*f, *a, *b),
{
    f(a, b)
}

/// Whether `f`, given references, accepts every argument and gives one result for each.
pub open spec fn computes3<A, B, C, R, F: Fn(&A, &B, &C) -> R>(f: F) -> bool {
    &&& forall|a: A, b: B, c: C| #[trigger] f.requires((&a, &b, &c))
    &&& forall|a: A, b: B, c: C, r1: R, r2: R|
        #[trigger] f.ensures((&a, &b, &c), r1) && #[trigger] f.ensures((&a, &b, &c), r2) ==> r1
            == r2
}

/// The result of `f` on references to its arguments.
pub open spec fn value3<A, B, C, R, F: Fn(&A, &B, &C) -> R>(f: F, a: A, b: B, c: C) -> R {
    choose|r: R| f.ensures((&a, &b, &c), r)
}

/// Applies `f` to references.
pub fn apply3<A, B, C, R, F: Fn(&A, &B, &C) -> R>(f: &F, a: &A, b: &B, c: &C) -> (r: R)
    requires
        computes3::<A, B, C, R, F>(*f),
    ensures
        r == value3::<A, B, C, R, F>(*f, *a, *b, *c),
{
    f(a, b, c)
}

/// Whether `f`, given references, accepts every argument and gives one result for each.
pub open spec fn computes4<A, B, C, D, R, F: Fn(&A, &B, &C, &D) -> R>(f: F) -> bool {
    &&& forall|a: A, b: B, c: C, d: D| #[trigger] f.requires((&a, &b, &c, &d))
    &&& forall|a: A, b: B, c: C, d: D, r1: R, r2: R|
        #[trigger] f.ensures((&a, &b, &c, &d), r1) && #[trigger] f.ensures((&a, &b, &c, &d), r2)
            ==> r1 == r2
}

/// The result of `f` on references to its arguments.
pub open spec fn value4<A, B, C, D, R, F: Fn(&A, &B, &C, &D) -> R>(
    f: F,
    a: A,
    b: B,
    c: C,
    d: D,
) -> R {
    choose|r: R| f.ensures((&a, &b, &c, &d), r)
}

/// Applies `f` to references.
pub fn apply4<A, B, C, D, R, F: Fn(&A, &B, &C, &D) -> R>(
    f: &F,
    a: &A,
    b: &B,
    c: &C,
    d: &D,
) -> (r: R)
    requires
        computes4::<A, B, C, D, R, F>(*f),
    ensures
        r == value4::<A, B, C, D, R, F>(*f, *a, *b, *c, *d),
{
    f(a, b, c, d)
}

// ---------------------------------------------------------------------------
// Operations on lists
// ---------------------------------------------------------------------------
/// What `f` makes of each element.
pub(crate) fn map_each<T: Copy, F: Fn(T) -> T>(list: &Vec<T>, f: &F) -> (out: Vec<T>)
    requires
        computes::<T, T, F>(*f),
    ensures
        out@ == list@.map_values(|x: T| value::<T, T, F>(*f, x)),
{
    let mut out: Vec<T> = Vec::with_capacity(list.len());
    let mut i: usize = 0;
    while i < list.len()
        invariant
            i <= list@.len(),
            out@.len() == i,
            computes::<T, T, F>(*f),
            forall|k: int| 0 <= k < i ==> #[trigger] out@[k] == value::<T, T, F>(*f, list@[k]),
        decreases list@.len() - i,
    {
        out.push(apply(f, list[i]));
        i = i + 1;
    }
    proof {
        assert(out@ =~= list@.map_values(|x: T| value::<T, T, F>(*f, x)));
    }
    out
}

/// Whether some list has the given elements. A sequence may be too long for any.
pub open spec fn held<A>(s: Seq<A>) -> bool {
    exists|v: Vec<A>| #[trigger] v@ == s
}

/// A list with the given elements.
pub open spec fn list_of<A>(s: Seq<A>) -> Vec<A> {
    choose|v: Vec<A>| v@ == s
}

/// Whether `f` accepts every list and gives one result for the elements of a list.
pub open spec fn reads1<A, R, F: Fn(&Vec<A>) -> R>(f: F) -> bool {
    &&& computes1::<Vec<A>, R, F>(f)
    &&& forall|v: Vec<A>, w: Vec<A>|
        v@ == w@ ==> #[trigger] value1::<Vec<A>, R, F>(f, v) == #[trigger] value1::<Vec<A>, R, F>(
            f,
            w,
        )
}

/// The result of `f` on a list with the given elements.
pub open spec fn seen1<A, R, F: Fn(&Vec<A>) -> R>(f: F, s: Seq<A>) -> R {
    value1::<Vec<A>, R, F>(f, list_of(s))
}

/// Applies `f` to a list.
pub fn see1<A, R, F: Fn(&Vec<A>) -> R>(f: &F, v: &Vec<A>) -> (r: R)
    requires
        reads1::<A, R, F>(*f),
    ensures
        r == seen1::<A, R, F>(*f, v@),
{
    proof {
        assert(list_of(v@)@ == v@);
    }
    apply1(f, v)
}

/// Whether `f`, given two lists, accepts every argument and gives one result for the elements of
/// the lists.
pub open spec fn reads2<A, B, R, F: Fn(&Vec<A>, &Vec<B>) -> R>(f: F) -> bool {
    &&& computes2::<Vec<A>, Vec<B>, R, F>(f)
    &&& forall|v: Vec<A>, w: Vec<A>, x: Vec<B>, y: Vec<B>|
        v@ == w@ && x@ == y@ ==> #[trigger] value2::<Vec<A>, Vec<B>, R, F>(f, v, x)
            == #[trigger] value2::<Vec<A>, Vec<B>, R, F>(f, w, y)
}

/// The result of `f` on lists with the given elements.
pub open spec fn seen2<A, B, R, F: Fn(&Vec<A>, &Vec<B>) -> R>(f: F, s: Seq<A>, t: Seq<B>) -> R {
    value2::<Vec<A>, Vec<B>, R, F>(f, list_of(s), list_of(t))
}

/// Applies `f` to two lists.
pub fn see2<A, B, R, F: Fn(&Vec<A>, &Vec<B>) -> R>(f: &F, v: &Vec<A>, w: &Vec<B>) -> (r: R)
    requires
        reads2::<A, B, R, F>(*f),
    ensures
        r == seen2::<A, B, R, F>(*f, v@, w@),
{
    proof {
        assert(list_of(v@)@ == v@);
        assert(list_of(w@)@ == w@);
    }
    apply2(f, v, w)
}

/// Whether `f`, given two lists behind another argument, accepts every argument and gives one
/// result for the elements of the lists and the other argument.
pub open spec fn reads_pair<A, B, C, R, F: Fn(&A, &Vec<B>, &Vec<C>) -> R>(f: F) -> bool {
    &&& computes3::<A, Vec<B>, Vec<C>, R, F>(f)
    &&& forall|a: A, v: Vec<B>, w: Vec<B>, x: Vec<C>, y: Vec<C>|
        v@ == w@ && x@ == y@ ==> #[trigger] value3::<A, Vec<B>, Vec<C>, R, F>(f, a, v, x)
            == #[trigger] value3::<A, Vec<B>, Vec<C>, R, F>(f, a, w, y)
}

/// The result of `f` on lists with the given elements behind another argument.
pub open spec fn seen_pair<A, B, C, R, F: Fn(&A, &Vec<B>, &Vec<C>) -> R>(
    f: F,
    a: A,
    s: Seq<B>,
    t: Seq<C>,
) -> R {
    value3::<A, Vec<B>, Vec<C>, R, F>(f, a, list_of(s), list_of(t))
}

/// Applies `f` to two lists behind another argument.
pub fn see_pair<A, B, C, R, F: Fn(&A, &Vec<B>, &Vec<C>) -> R>(
    f: &F,
    a: &A,
    v: &Vec<B>,
    w: &Vec<C>,
) -> (r: R)
    requires
        reads_pair::<A, B, C, R, F>(*f),
    ensures
        r == seen_pair::<A, B, C, R, F>(*f, *a, v@, w@),
{
    proof {
        assert(list_of(v@)@ == v@);
        assert(list_of(w@)@ == w@);
    }
    apply3(f, a, v, w)
}

/// Whether `f` makes a list of every argument, with the same elements whenever it is called.
pub open spec fn lists1<A, R, F: Fn(&A) -> Vec<R>>(f: F) -> bool {
    &&& forall|a: A| #[trigger] f.requires((&a,))
    &&& forall|a: A, r1: Vec<R>, r2: Vec<R>| #[trigger]
        f.ensures((&a,), r1) && #[trigger] f.ensures((&a,), r2) ==> r1@ == r2@
}

/// Whether `f` may make a list of the given elements.
pub open spec fn may_list1<A, R, F: Fn(&A) -> Vec<R>>(f: F, a: A, r: Seq<R>) -> bool {
    exists|out: Vec<R>| out@ == r && #[trigger] f.ensures((&a,), out)
}

/// The elements of the list that `f` makes.
pub open spec fn listed1<A, R, F: Fn(&A) -> Vec<R>>(f: F, a: A) -> Seq<R> {
    choose|r: Seq<R>| may_list1::<A, R, F>(f, a, r)
}

/// Makes a list.
pub fn list1<A, R, F: Fn(&A) -> Vec<R>>(f: &F, a: &A) -> (r: Vec<R>)
    requires
        lists1::<A, R, F>(*f),
    ensures
        r@ == listed1::<A, R, F>(*f, *a),
{
    let r = f(a);
    proof {
        assert(may_list1::<A, R, F>(*f, *a, r@));
        assert(may_list1::<A, R, F>(*f, *a, listed1::<A, R, F>(*f, *a)));
    }
    r
}

/// Whether `f` makes a list of every list and second argument, with the same elements for the
/// elements of a list and the second argument.
pub open spec fn maps2<A, B, R, F: Fn(&Vec<A>, &B) -> Vec<R>>(f: F) -> bool {
    &&& forall|v: Vec<A>, b: B| #[trigger] f.requires((&v, &b))
    &&& forall|v: Vec<A>, w: Vec<A>, b: B, r1: Vec<R>, r2: Vec<R>|
        v@ == w@ && #[trigger] f.ensures((&v, &b), r1) && #[trigger] f.ensures((&w, &b), r2)
            ==> r1@ == r2@
}

/// Whether `f` may make a list of the elements `r` of one of the elements `s`.
pub open spec fn may_map2<A, B, R, F: Fn(&Vec<A>, &B) -> Vec<R>>(
    f: F,
    s: Seq<A>,
    b: B,
    r: Seq<R>,
) -> bool {
    exists|v: Vec<A>, out: Vec<R>|
        v@ == s && out@ == r && #[trigger] f.ensures((&v, &b), out)
}

/// The elements of the list that `f` makes of a list with the given elements.
pub open spec fn mapped2<A, B, R, F: Fn(&Vec<A>, &B) -> Vec<R>>(f: F, s: Seq<A>, b: B) -> Seq<R> {
    choose|r: Seq<R>| may_map2::<A, B, R, F>(f, s, b, r)
}

/// Makes a list of a list.
pub fn map2<A, B, R, F: Fn(&Vec<A>, &B) -> Vec<R>>(f: &F, v: &Vec<A>, b: &B) -> (r: Vec<R>)
    requires
        maps2::<A, B, R, F>(*f),
    ensures
        r@ == mapped2::<A, B, R, F>(*f, v@, *b),
        f.ensures((v, b), r),
{
    let r = f(v, b);
    proof {
        assert(may_map2::<A, B, R, F>(*f, v@, *b, r@));
        assert(may_map2::<A, B, R, F>(*f, v@, *b, mapped2::<A, B, R, F>(*f, v@, *b)));
    }
    r
}

/// Whether `f`, given a list as its third argument, accepts every argument and gives one result
/// for the elements of the list and the other arguments.
pub open spec fn reads3<A, B, C, D, R, F: Fn(&A, &B, &Vec<C>, &D) -> R>(f: F) -> bool {
    &&& computes4::<A, B, Vec<C>, D, R, F>(f)
    &&& forall|a: A, b: B, v: Vec<C>, w: Vec<C>, d: D|
        v@ == w@ ==> #[trigger] value4::<A, B, Vec<C>, D, R, F>(f, a, b, v, d)
            == #[trigger] value4::<A, B, Vec<C>, D, R, F>(f, a, b, w, d)
}

/// The result of `f` on a list with the given elements as its third argument.
pub open spec fn seen3<A, B, C, D, R, F: Fn(&A, &B, &Vec<C>, &D) -> R>(
    f: F,
    a: A,
    b: B,
    s: Seq<C>,
    d: D,
) -> R {
    value4::<A, B, Vec<C>, D, R, F>(f, a, b, list_of(s), d)
}

/// Applies `f` to a list as its third argument.
pub fn see3<A, B, C, D, R, F: Fn(&A, &B, &Vec<C>, &D) -> R>(
    f: &F,
    a: &A,
    b: &B,
    v: &Vec<C>,
    d: &D,
) -> (r: R)
    requires
        reads3::<A, B, C, D, R, F>(*f),
    ensures
        r == seen3::<A, B, C, D, R, F>(*f, *a, *b, v@, *d),
{
    proof {
        assert(list_of(v@)@ == v@);
    }
    apply4(f, a, b, v, d)
}

/// Whether `f`, given two lists between other arguments, accepts every argument and gives one
/// result for the elements of the lists and the other arguments.
pub open spec fn reads4<A, B, C, D, R, F: Fn(&A, &Vec<B>, &Vec<C>, &D) -> R>(f: F) -> bool {
    &&& computes4::<A, Vec<B>, Vec<C>, D, R, F>(f)
    &&& forall|a: A, v: Vec<B>, w: Vec<B>, x: Vec<C>, y: Vec<C>, d: D|
        v@ == w@ && x@ == y@ ==> #[trigger] value4::<A, Vec<B>, Vec<C>, D, R, F>(f, a, v, x, d)
            == #[trigger] value4::<A, Vec<B>, Vec<C>, D, R, F>(f, a, w, y, d)
}

/// The result of `f` on lists with the given elements between other arguments.
pub open spec fn seen4<A, B, C, D, R, F: Fn(&A, &Vec<B>, &Vec<C>, &D) -> R>(
    f: F,
    a: A,
    s: Seq<B>,
    t: Seq<C>,
    d: D,
) -> R {
    value4::<A, Vec<B>, Vec<C>, D, R, F>(f, a, list_of(s), list_of(t), d)
}

/// Applies `f` to two lists between other arguments.
pub fn see4<A, B, C, D, R, F: Fn(&A, &Vec<B>, &Vec<C>, &D) -> R>(
    f: &F,
    a: &A,
    v: &Vec<B>,
    w: &Vec<C>,
    d: &D,
) -> (r: R)
    requires
        reads4::<A, B, C, D, R, F>(*f),
    ensures
        r == seen4::<A, B, C, D, R, F>(*f, *a, v@, w@, *d),
{
    proof {
        assert(list_of(v@)@ == v@);
        assert(list_of(w@)@ == w@);
    }
    apply4(f, a, v, w, d)
}

} // verus!
