//! Laws of monomorphisation: nothing generic is left, and whatever is called or built at
//! given types has an instance.

use vstd::prelude::*;

use crate::ast::TypeV;
use crate::concrete::fn_concrete;
use crate::mangle::{mangled, substituted};
use crate::mir::{EnumV, FnV, ProgramV, StructV};
use crate::monomorphic::{
    calls_in, enum_names, enums_left, enums_made, expand, expanded, expands, fn_instance, fn_names,
    fns_left, follow, follow_all, monomorphized, plain_enums, plain_fns, plain_structs, position,
    struct_names, structs_left, structs_made, work_of, InstanceV, Work,
};

verus! {

/// Whether a call needs nothing more: the function it names is not generic or does not
/// exist, or its instance was made.
pub open spec fn served(templates: Seq<FnV>, made: Set<Seq<char>>, site: InstanceV) -> bool {
    match position(fn_names(templates), site.0, 0) {
        None => true,
        Some(i) => templates[i].generic_params.len() == 0 || made.contains(
            mangled(templates[i].name, site.1),
        ),
    }
}

/// Whether the names that are counted as made are those of the instances, each made once
/// and none of them generic.
pub open spec fn work_ok(w: Work) -> bool {
    &&& forall|i: int| 0 <= i < w.fns.len() ==> (#[trigger] w.fns[i]).generic_params.len() == 0
    &&& forall|i: int| 0 <= i < w.fns.len() ==> w.made.contains((#[trigger] w.fns[i]).name)
    &&& forall|n: Seq<char>| #[trigger]
        w.made.contains(n) ==> exists|i: int| 0 <= i < w.fns.len() && (#[trigger] w.fns[i]).name == n
    &&& forall|i: int, j: int|
        0 <= i < w.fns.len() && 0 <= j < w.fns.len() && i != j ==> (#[trigger] w.fns[i]).name != (
        #[trigger] w.fns[j]).name
}

/// Whether every call of a body is served or still to follow.
pub open spec fn attended(templates: Seq<FnV>, w: Work, f: FnV) -> bool {
    forall|k: int|
        0 <= k < calls_in(f.body).len() ==> served(
            templates,
            w.made,
            #[trigger] calls_in(f.body)[k],
        ) || w.calls.contains(calls_in(f.body)[k])
}

/// A call that was followed is served, and what was made stays made.
proof fn lemma_follow(templates: Seq<FnV>, w: Work, site: InstanceV)
    requires
        work_ok(w),
    ensures
        work_ok(follow(templates, w, site)),
        served(templates, follow(templates, w, site).made, site),
        w.made.subset_of(follow(templates, w, site).made),
        w.fns.len() <= follow(templates, w, site).fns.len(),
        forall|i: int|
            0 <= i < w.fns.len() ==> #[trigger] follow(templates, w, site).fns[i] == w.fns[i],
        forall|c: InstanceV|
            w.calls.contains(c) ==> #[trigger] follow(templates, w, site).calls.contains(c),
        forall|i: int|
            w.fns.len() <= i < follow(templates, w, site).fns.len() ==> attended(
                templates,
                follow(templates, w, site),
                #[trigger] follow(templates, w, site).fns[i],
            ),
{
    let r = follow(templates, w, site);
    match position(fn_names(templates), site.0, 0) {
        None => {},
        Some(i) => {
            let inst = fn_instance(templates[i], site.1);
            if !(templates[i].generic_params.len() == 0 || w.made.contains(inst.name)) {
                let n = w.fns.len() as int;
                assert(r.fns[n] == inst);
                assert forall|x: Seq<char>| #[trigger] r.made.contains(x) implies exists|j: int|
                    0 <= j < r.fns.len() && (#[trigger] r.fns[j]).name == x by {
                    if x == inst.name {
                        assert(r.fns[n].name == x);
                    } else {
                        let j = choose|j: int|
                            0 <= j < w.fns.len() && (#[trigger] w.fns[j]).name == x;
                        assert(r.fns[j].name == x);
                    }
                }
                assert forall|c: InstanceV| w.calls.contains(c) implies #[trigger] r.calls.contains(
                    c,
                ) by {
                    let k = choose|k: int| 0 <= k < w.calls.len() && w.calls[k] == c;
                    assert(r.calls[k] == c);
                }
                assert(attended(templates, r, inst)) by {
                    let cs = calls_in(inst.body);
                    assert forall|k: int| 0 <= k < cs.len() implies r.calls.contains(
                        #[trigger] cs[k],
                    ) by {
                        assert(r.calls[w.calls.len() + k] == cs[k]);
                    }
                }
            }
        },
    }
}

proof fn lemma_served_more(
    templates: Seq<FnV>,
    made: Set<Seq<char>>,
    more: Set<Seq<char>>,
    site: InstanceV,
)
    requires
        made.subset_of(more),
        served(templates, made, site),
    ensures
        served(templates, more, site),
{
}

/// Following a list of calls serves them all, and attends to all that is made.
proof fn lemma_follow_all(templates: Seq<FnV>, w: Work, sites: Seq<InstanceV>, n: int)
    requires
        work_ok(w),
        0 <= n <= sites.len(),
    ensures
        work_ok(follow_all(templates, w, sites, n)),
        w.made.subset_of(follow_all(templates, w, sites, n).made),
        w.fns.len() <= follow_all(templates, w, sites, n).fns.len(),
        forall|i: int|
            0 <= i < w.fns.len() ==> #[trigger] follow_all(templates, w, sites, n).fns[i]
                == w.fns[i],
        forall|k: int|
            0 <= k < n ==> served(
                templates,
                follow_all(templates, w, sites, n).made,
                #[trigger] sites[k],
            ),
        forall|i: int|
            w.fns.len() <= i < follow_all(templates, w, sites, n).fns.len() ==> attended(
                templates,
                follow_all(templates, w, sites, n),
                #[trigger] follow_all(templates, w, sites, n).fns[i],
            ),
    decreases n,
{
    if n > 0 {
        lemma_follow_all(templates, w, sites, n - 1);
        let mid = follow_all(templates, w, sites, n - 1);
        lemma_follow(templates, mid, sites[n - 1]);
        let r = follow_all(templates, w, sites, n);
        assert forall|k: int| 0 <= k < n implies served(
            templates,
            r.made,
            #[trigger] sites[k],
        ) by {
            if k < n - 1 {
                lemma_served_more(templates, mid.made, r.made, sites[k]);
            }
        }
        assert forall|i: int| w.fns.len() <= i < r.fns.len() implies attended(
            templates,
            r,
            #[trigger] r.fns[i],
        ) by {
            if i < mid.fns.len() {
                assert(r.fns[i] == mid.fns[i]);
                assert(attended(templates, mid, mid.fns[i]));
                lemma_attended_more(templates, mid, r, mid.fns[i]);
            }
        }
    }
}

proof fn lemma_attended_more(templates: Seq<FnV>, a: Work, b: Work, f: FnV)
    requires
        a.made.subset_of(b.made),
        forall|c: InstanceV| a.calls.contains(c) ==> #[trigger] b.calls.contains(c),
        attended(templates, a, f),
    ensures
        attended(templates, b, f),
{
    let cs = calls_in(f.body);
    assert forall|k: int| 0 <= k < cs.len() implies served(templates, b.made, #[trigger] cs[k])
        || b.calls.contains(cs[k]) by {
        if served(templates, a.made, cs[k]) {
            lemma_served_more(templates, a.made, b.made, cs[k]);
        }
    }
}

/// A function that is attended to stays so through a round.
proof fn lemma_round_attends(templates: Seq<FnV>, w: Work, f: FnV)
    requires
        work_ok(w),
        attended(templates, w, f),
    ensures
        attended(
            templates,
            follow_all(
                templates,
                Work { calls: Seq::empty(), ..w },
                w.calls,
                w.calls.len() as int,
            ),
            f,
        ),
{
    let w0 = Work { calls: Seq::empty(), ..w };
    lemma_follow_all(templates, w0, w.calls, w.calls.len() as int);
    let r = follow_all(templates, w0, w.calls, w.calls.len() as int);
    let cs = calls_in(f.body);
    assert forall|k: int| 0 <= k < cs.len() implies served(templates, r.made, #[trigger] cs[k])
        || r.calls.contains(cs[k]) by {
        if served(templates, w.made, cs[k]) {
            lemma_served_more(templates, w.made, r.made, cs[k]);
        } else {
            let j = choose|j: int| 0 <= j < w.calls.len() && w.calls[j] == cs[k];
            assert(served(templates, r.made, w.calls[j]));
        }
    }
}

/// At the end of an expansion every instance has all its calls served.
proof fn lemma_expand(templates: Seq<FnV>, w: Work, k: nat)
    requires
        work_ok(w),
        expand(templates, w, k) is Some,
        forall|i: int| 0 <= i < w.fns.len() ==> attended(templates, w, #[trigger] w.fns[i]),
    ensures
        work_ok(expand(templates, w, k)->0),
        expand(templates, w, k)->0.calls.len() == 0,
        forall|i: int|
            0 <= i < expand(templates, w, k)->0.fns.len() ==> attended(
                templates,
                expand(templates, w, k)->0,
                #[trigger] expand(templates, w, k)->0.fns[i],
            ),
    decreases k,
{
    if w.calls.len() > 0 {
        let w0 = Work { calls: Seq::empty(), ..w };
        let n = w.calls.len() as int;
        lemma_follow_all(templates, w0, w.calls, n);
        let next = follow_all(templates, w0, w.calls, n);
        assert forall|i: int| 0 <= i < next.fns.len() implies attended(
            templates,
            next,
            #[trigger] next.fns[i],
        ) by {
            if i < w.fns.len() {
                assert(next.fns[i] == w.fns[i]);
                lemma_round_attends(templates, w, w.fns[i]);
            }
        }
        lemma_expand(templates, next, (k - 1) as nat);
    }
}

/// A function that is attended to at the start is so at the end.
proof fn lemma_expand_attends(templates: Seq<FnV>, w: Work, k: nat, f: FnV)
    requires
        work_ok(w),
        attended(templates, w, f),
        expand(templates, w, k) is Some,
    ensures
        attended(templates, expand(templates, w, k)->0, f),
    decreases k,
{
    if w.calls.len() > 0 {
        let w0 = Work { calls: Seq::empty(), ..w };
        let n = w.calls.len() as int;
        lemma_follow_all(templates, w0, w.calls, n);
        lemma_round_attends(templates, w, f);
        lemma_expand_attends(templates, follow_all(templates, w0, w.calls, n), (k - 1) as nat, f);
    }
}

proof fn lemma_work_start(fns: Seq<FnV>, n: int)
    requires
        0 <= n <= fns.len(),
    ensures
        work_ok(work_of(fns, n)),
        work_of(fns, n).fns.len() == 0,
        forall|i: int| 0 <= i < n ==> attended(fns, work_of(fns, n), #[trigger] fns[i]),
    decreases n,
{
    if n > 0 {
        lemma_work_start(fns, n - 1);
        let w = work_of(fns, n - 1);
        let r = work_of(fns, n);
        assert forall|c: InstanceV| w.calls.contains(c) implies #[trigger] r.calls.contains(c) by {
            let k = choose|k: int| 0 <= k < w.calls.len() && w.calls[k] == c;
            assert(r.calls[k] == c);
        }
        assert forall|i: int| 0 <= i < n implies attended(fns, r, #[trigger] fns[i]) by {
            if i < n - 1 {
                lemma_attended_more(fns, w, r, fns[i]);
            } else {
                let cs = calls_in(fns[i].body);
                assert forall|k: int| 0 <= k < cs.len() implies r.calls.contains(
                    #[trigger] cs[k],
                ) by {
                    assert(r.calls[w.calls.len() + k] == cs[k]);
                }
            }
        }
    }
}

/// The instances of functions have different names, and none is generic.
pub proof fn lemma_instances(fns: Seq<FnV>)
    requires
        expands(fns),
    ensures
        work_ok(expanded(fns)),
{
    let w = work_of(fns, fns.len() as int);
    lemma_work_start(fns, fns.len() as int);
    let k = choose|k: nat| expand(fns, w, k) is Some;
    lemma_expand(fns, w, k);
}

/// Every generic call, of a function of the program or of an instance, has its instance.
pub proof fn lemma_calls_served(fns: Seq<FnV>, f: FnV, k: int)
    requires
        expands(fns),
        fns.contains(f) || expanded(fns).fns.contains(f),
        0 <= k < calls_in(f.body).len(),
    ensures
        served(fns, expanded(fns).made, calls_in(f.body)[k]),
{
    let w = work_of(fns, fns.len() as int);
    lemma_work_start(fns, fns.len() as int);
    let n = choose|n: nat| expand(fns, w, n) is Some;
    lemma_expand(fns, w, n);
    if fns.contains(f) {
        let i = choose|i: int| 0 <= i < fns.len() && fns[i] == f;
        assert(attended(fns, w, fns[i]));
        lemma_expand_attends(fns, w, n, f);
    } else {
        let i = choose|i: int|
            0 <= i < expanded(fns).fns.len() && expanded(fns).fns[i] == f;
        assert(attended(fns, expanded(fns), expanded(fns).fns[i]));
    }
}

proof fn lemma_plain_fns(fns: Seq<FnV>, n: int)
    requires
        0 <= n <= fns.len(),
    ensures
        forall|i: int|
            0 <= i < plain_fns(fns, n).len() ==> (#[trigger] plain_fns(
                fns,
                n,
            )[i]).generic_params.len() == 0,
    decreases n,
{
    if n > 0 {
        lemma_plain_fns(fns, n - 1);
        let front = plain_fns(fns, n - 1);
        let all = plain_fns(fns, n);
        assert forall|i: int| 0 <= i < all.len() implies (
        #[trigger] all[i]).generic_params.len() == 0 by {
            if i < front.len() {
                assert(all[i] == front[i]);
            }
        }
    }
}

proof fn lemma_plain_structs(structs: Seq<StructV>, n: int)
    requires
        0 <= n <= structs.len(),
    ensures
        forall|i: int|
            0 <= i < plain_structs(structs, n).len() ==> (#[trigger] plain_structs(
                structs,
                n,
            )[i]).generic_params.len() == 0,
    decreases n,
{
    if n > 0 {
        lemma_plain_structs(structs, n - 1);
        let front = plain_structs(structs, n - 1);
        let all = plain_structs(structs, n);
        assert forall|i: int| 0 <= i < all.len() implies (
        #[trigger] all[i]).generic_params.len() == 0 by {
            if i < front.len() {
                assert(all[i] == front[i]);
            }
        }
    }
}

proof fn lemma_plain_enums(enums: Seq<EnumV>, n: int)
    requires
        0 <= n <= enums.len(),
    ensures
        forall|i: int|
            0 <= i < plain_enums(enums, n).len() ==> (#[trigger] plain_enums(
                enums,
                n,
            )[i]).generic_params.len() == 0,
    decreases n,
{
    if n > 0 {
        lemma_plain_enums(enums, n - 1);
        let front = plain_enums(enums, n - 1);
        let all = plain_enums(enums, n);
        assert forall|i: int| 0 <= i < all.len() implies (
        #[trigger] all[i]).generic_params.len() == 0 by {
            if i < front.len() {
                assert(all[i] == front[i]);
            }
        }
    }
}

/// Struct instances are not generic and have different names, and each use of a generic
/// struct has one.
pub proof fn lemma_structs_made(templates: Seq<StructV>, uses: Seq<InstanceV>, n: int)
    requires
        0 <= n <= uses.len(),
    ensures
        ({
            let (made, names) = structs_made(templates, uses, n);
            &&& forall|i: int|
                0 <= i < made.len() ==> (#[trigger] made[i]).generic_params.len() == 0
                    && names.contains(made[i].name)
            &&& forall|i: int, j: int|
                0 <= i < made.len() && 0 <= j < made.len() && i != j ==> (#[trigger] made[i]).name
                    != (#[trigger] made[j]).name
            &&& forall|x: Seq<char>| #[trigger]
                names.contains(x) ==> exists|i: int|
                    0 <= i < made.len() && (#[trigger] made[i]).name == x
            &&& forall|k: int|
                0 <= k < n ==> match position(struct_names(templates), (#[trigger] uses[k]).0, 0) {
                    None => true,
                    Some(i) => templates[i].generic_params.len() == 0 || names.contains(
                        mangled(templates[i].name, uses[k].1),
                    ),
                }
        }),
    decreases n,
{
    if n > 0 {
        lemma_structs_made(templates, uses, n - 1);
        let (m0, n0) = structs_made(templates, uses, n - 1);
        let (made, names) = structs_made(templates, uses, n);
        if made != m0 {
            let last = made.len() - 1;
            assert forall|x: Seq<char>| #[trigger] names.contains(x) implies exists|i: int|
                0 <= i < made.len() && (#[trigger] made[i]).name == x by {
                if n0.contains(x) {
                    let i = choose|i: int| 0 <= i < m0.len() && (#[trigger] m0[i]).name == x;
                    assert(made[i].name == x);
                } else {
                    assert(made[last].name == x);
                }
            }
        }
    }
}

/// Enum instances are not generic and have different names, and each use of a generic
/// enum has one.
pub proof fn lemma_enums_made(templates: Seq<EnumV>, uses: Seq<InstanceV>, n: int)
    requires
        0 <= n <= uses.len(),
    ensures
        ({
            let (made, names) = enums_made(templates, uses, n);
            &&& forall|i: int|
                0 <= i < made.len() ==> (#[trigger] made[i]).generic_params.len() == 0
                    && names.contains(made[i].name)
            &&& forall|i: int, j: int|
                0 <= i < made.len() && 0 <= j < made.len() && i != j ==> (#[trigger] made[i]).name
                    != (#[trigger] made[j]).name
            &&& forall|x: Seq<char>| #[trigger]
                names.contains(x) ==> exists|i: int|
                    0 <= i < made.len() && (#[trigger] made[i]).name == x
            &&& forall|k: int|
                0 <= k < n ==> match position(enum_names(templates), (#[trigger] uses[k]).0, 0) {
                    None => true,
                    Some(i) => templates[i].generic_params.len() == 0 || names.contains(
                        mangled(templates[i].name, uses[k].1),
                    ),
                }
        }),
    decreases n,
{
    if n > 0 {
        lemma_enums_made(templates, uses, n - 1);
        let (m0, n0) = enums_made(templates, uses, n - 1);
        let (made, names) = enums_made(templates, uses, n);
        if made != m0 {
            let last = made.len() - 1;
            assert forall|x: Seq<char>| #[trigger] names.contains(x) implies exists|i: int|
                0 <= i < made.len() && (#[trigger] made[i]).name == x by {
                if n0.contains(x) {
                    let i = choose|i: int| 0 <= i < m0.len() && (#[trigger] m0[i]).name == x;
                    assert(made[i].name == x);
                } else {
                    assert(made[last].name == x);
                }
            }
        }
    }
}

/// No function, struct or enum of a monomorphised program is generic.
pub proof fn lemma_no_generics_left(p: ProgramV)
    requires
        expands(p.fns),
    ensures
        forall|i: int|
            0 <= i < monomorphized(p).fns.len() ==> (#[trigger] monomorphized(
                p,
            ).fns[i]).generic_params.len() == 0,
        forall|i: int|
            0 <= i < monomorphized(p).structs.len() ==> (#[trigger] monomorphized(
                p,
            ).structs[i]).generic_params.len() == 0,
        forall|i: int|
            0 <= i < monomorphized(p).enums.len() ==> (#[trigger] monomorphized(
                p,
            ).enums[i]).generic_params.len() == 0,
{
    let w = expanded(p.fns);
    lemma_instances(p.fns);
    lemma_plain_fns(p.fns, p.fns.len() as int);
    lemma_plain_structs(p.structs, p.structs.len() as int);
    lemma_plain_enums(p.enums, p.enums.len() as int);
    lemma_structs_made(p.structs, w.structs, w.structs.len() as int);
    lemma_enums_made(p.enums, w.enums, w.enums.len() as int);
    assert forall|i: int| 0 <= i < fns_left(p).len() implies (#[trigger] fns_left(
        p,
    )[i]).generic_params.len() == 0 by {
        let n = w.fns.len();
        if i < n {
            assert(fns_left(p)[i] == w.fns[i]);
        } else {
            assert(fns_left(p)[i] == plain_fns(p.fns, p.fns.len() as int)[i - n]);
        }
    }
    assert forall|i: int| 0 <= i < structs_left(p).len() implies (#[trigger] structs_left(
        p,
    )[i]).generic_params.len() == 0 by {
        let made = structs_made(p.structs, w.structs, w.structs.len() as int).0;
        if i < made.len() {
            assert(structs_left(p)[i] == made[i]);
        } else {
            assert(structs_left(p)[i] == plain_structs(
                p.structs,
                p.structs.len() as int,
            )[i - made.len()]);
        }
    }
    assert forall|i: int| 0 <= i < enums_left(p).len() implies (#[trigger] enums_left(
        p,
    )[i]).generic_params.len() == 0 by {
        let made = enums_made(p.enums, w.enums, w.enums.len() as int).0;
        if i < made.len() {
            assert(enums_left(p)[i] == made[i]);
        } else {
            assert(enums_left(p)[i] == plain_enums(
                p.enums,
                p.enums.len() as int,
            )[i - made.len()]);
        }
    }
    assert forall|i: int| 0 <= i < monomorphized(p).fns.len() implies (#[trigger] monomorphized(
        p,
    ).fns[i]).generic_params.len() == 0 by {
        assert(fns_left(p)[i].generic_params.len() == 0);
    }
    assert forall|i: int| 0 <= i < monomorphized(p).structs.len() implies (
    #[trigger] monomorphized(p).structs[i]).generic_params.len() == 0 by {
        assert(structs_left(p)[i].generic_params.len() == 0);
    }
    assert forall|i: int| 0 <= i < monomorphized(p).enums.len() implies (#[trigger] monomorphized(
        p,
    ).enums[i]).generic_params.len() == 0 by {
        assert(enums_left(p)[i].generic_params.len() == 0);
    }
}

/// Functions that are not generic are kept, in order.
proof fn lemma_plain_kept(fns: Seq<FnV>, n: int, i: int) -> (j: int)
    requires
        0 <= i < n <= fns.len(),
        fns[i].generic_params.len() == 0,
    ensures
        0 <= j < plain_fns(fns, n).len(),
        plain_fns(fns, n)[j] == fns[i],
    decreases n,
{
    if i == n - 1 {
        plain_fns(fns, n - 1).len() as int
    } else {
        lemma_plain_kept(fns, n - 1, i)
    }
}

/// A function that is not generic is in the monomorphised program, under its name.
pub proof fn lemma_plain_fn_kept(p: ProgramV, i: int) -> (j: int)
    requires
        0 <= i < p.fns.len(),
        p.fns[i].generic_params.len() == 0,
    ensures
        0 <= j < monomorphized(p).fns.len(),
        monomorphized(p).fns[j] == fn_concrete(
            p.fns[i],
            struct_names(structs_left(p)).to_set(),
            enum_names(enums_left(p)).to_set(),
        ),
        monomorphized(p).fns[j].name == p.fns[i].name,
{
    let k = lemma_plain_kept(p.fns, p.fns.len() as int, i);
    let j = expanded(p.fns).fns.len() + k;
    assert(fns_left(p)[j] == p.fns[i]);
    j
}

/// Whether a type mentions no type parameter.
pub open spec fn ground(t: TypeV) -> bool
    decreases t,
{
    match t {
        TypeV::TypeParam(_) => false,
        TypeV::Generic(_, ts) => forall|i: int| 0 <= i < ts.len() ==> ground(#[trigger] ts[i]),
        TypeV::Tuple(ts) => forall|i: int| 0 <= i < ts.len() ==> ground(#[trigger] ts[i]),
        TypeV::Array(e, _) => ground(*e),
        TypeV::Ref { inner, .. } => ground(*inner),
        TypeV::Slice(e) => ground(*e),
        TypeV::Privacy(e, _) => ground(*e),
        TypeV::Tensor { dtype, .. } => ground(*dtype),
        _ => true,
    }
}

/// Whether a type mentions only the given type parameters, and none inside a tensor.
pub open spec fn mentions_only(t: TypeV, params: Set<Seq<char>>) -> bool
    decreases t,
{
    match t {
        TypeV::TypeParam(n) => params.contains(n),
        TypeV::Generic(_, ts) => forall|i: int|
            0 <= i < ts.len() ==> mentions_only(#[trigger] ts[i], params),
        TypeV::Tuple(ts) => forall|i: int|
            0 <= i < ts.len() ==> mentions_only(#[trigger] ts[i], params),
        TypeV::Array(e, _) => mentions_only(*e, params),
        TypeV::Ref { inner, .. } => mentions_only(*inner, params),
        TypeV::Slice(e) => mentions_only(*e, params),
        TypeV::Privacy(e, _) => mentions_only(*e, params),
        TypeV::Tensor { dtype, .. } => ground(*dtype),
        _ => true,
    }
}

/// Replacing all the type parameters of a type by types without any leaves none.
pub proof fn lemma_substituted_ground(t: TypeV, subst: Map<Seq<char>, TypeV>)
    requires
        mentions_only(t, subst.dom()),
        forall|n: Seq<char>| #[trigger] subst.contains_key(n) ==> ground(subst[n]),
    ensures
        ground(substituted(t, subst)),
    decreases t,
{
    match t {
        TypeV::Generic(n, ts) => {
            let r = substituted(t, subst)->Generic_1;
            assert forall|i: int| 0 <= i < r.len() implies ground(#[trigger] r[i]) by {
                assert(mentions_only(ts[i], subst.dom()));
                lemma_substituted_ground(ts[i], subst);
            }
        },
        TypeV::Tuple(ts) => {
            let r = substituted(t, subst)->Tuple_0;
            assert forall|i: int| 0 <= i < r.len() implies ground(#[trigger] r[i]) by {
                assert(mentions_only(ts[i], subst.dom()));
                lemma_substituted_ground(ts[i], subst);
            }
        },
        TypeV::Array(e, _) => {
            lemma_substituted_ground(*e, subst);
        },
        TypeV::Ref { inner, .. } => {
            lemma_substituted_ground(*inner, subst);
        },
        TypeV::Slice(e) => {
            lemma_substituted_ground(*e, subst);
        },
        TypeV::Privacy(e, _) => {
            lemma_substituted_ground(*e, subst);
        },
        _ => {},
    }
}

/// A type without type parameters is left as it is.
pub proof fn lemma_ground_unchanged(t: TypeV, subst: Map<Seq<char>, TypeV>)
    requires
        ground(t),
    ensures
        substituted(t, subst) == t,
    decreases t,
{
    match t {
        TypeV::Generic(n, ts) => {
            let r = substituted(t, subst)->Generic_1;
            assert forall|i: int| 0 <= i < r.len() implies r[i] == ts[i] by {
                lemma_ground_unchanged(ts[i], subst);
            }
            assert(r =~= ts);
        },
        TypeV::Tuple(ts) => {
            let r = substituted(t, subst)->Tuple_0;
            assert forall|i: int| 0 <= i < r.len() implies r[i] == ts[i] by {
                lemma_ground_unchanged(ts[i], subst);
            }
            assert(r =~= ts);
        },
        TypeV::Array(e, _) => {
            lemma_ground_unchanged(*e, subst);
        },
        TypeV::Ref { inner, .. } => {
            lemma_ground_unchanged(*inner, subst);
        },
        TypeV::Slice(e) => {
            lemma_ground_unchanged(*e, subst);
        },
        TypeV::Privacy(e, _) => {
            lemma_ground_unchanged(*e, subst);
        },
        _ => {},
    }
}

} // verus!
