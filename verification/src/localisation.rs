//! Restricting a specification to the streams monitored at one location.
use vstd::prelude::*;

use crate::ast::{LOLASpecification, SExprV, SpecV, expr_inputs};
use crate::variables::{VarName, contains_var, copy_vars, var_views};
use crate::varmap::Duplicate;

verus! {

/// Something that says which variables are monitored locally.
pub trait LocalitySpec {
    /// The locally monitored variables.
    spec fn spec_local_vars(&self) -> Seq<Seq<char>>;

    /// Whether the local variables can be read.
    spec fn has_local_vars(&self) -> bool;

    /// The locally monitored variables.
    fn local_vars(&self) -> (r: Vec<VarName>)
        requires
            self.has_local_vars(),
        ensures
            var_views(r@) == self.spec_local_vars(),
    ;
}

impl LocalitySpec for Vec<VarName> {
    open spec fn spec_local_vars(&self) -> Seq<Seq<char>> {
        var_views(self@)
    }

    open spec fn has_local_vars(&self) -> bool {
        true
    }

    fn local_vars(&self) -> (r: Vec<VarName>) {
        copy_vars(self)
    }
}

/// Something that can be restricted to the variables monitored locally.
pub trait Localisable: Sized {
    /// The part of `self` monitored where `locality_spec` says.
    fn localise<L: LocalitySpec>(&self, locality_spec: &L) -> Self
        requires
            locality_spec.has_local_vars(),
    ;
}

/// The variables read by some expression of `exprs`.
pub open spec fn read_vars(exprs: Map<Seq<char>, SExprV>) -> Set<Seq<char>> {
    Set::new(
        |v: Seq<char>|
            exists|k: Seq<char>| exprs.contains_key(k) && #[trigger] expr_inputs(exprs[k]).contains(v),
    )
}

/// `s` restricted to the outputs in `local`: those outputs (and their
/// expressions and auxiliary marks) remain; the inputs are what the remaining
/// expressions read among the old inputs and the outputs that are no longer
/// computed here, in that order.
pub open spec fn spec_localise(s: SpecV, local: Seq<Seq<char>>) -> SpecV {
    let exprs = s.exprs.restrict(local.to_set());
    let used = read_vars(exprs);
    SpecV {
        input_vars: (s.input_vars + s.output_vars.filter(|v: Seq<char>| !local.contains(v))).filter(
            |v: Seq<char>| used.contains(v),
        ),
        output_vars: s.output_vars.filter(|v: Seq<char>| local.contains(v)),
        exprs,
        type_annotations: s.type_annotations,
        aux_info: s.aux_info.filter(|v: Seq<char>| local.contains(v)),
    }
}

/// The variables of `vs` that are (when `inside`) or are not (otherwise)
/// among `keep`, in order.
pub(crate) fn filter_vars(vs: &Vec<VarName>, keep: &Vec<VarName>, inside: bool) -> (r: Vec<VarName>)
    ensures
        var_views(r@) == var_views(vs@).filter(
            |v: Seq<char>| var_views(keep@).contains(v) == inside,
        ),
{
    let ghost pred = |v: Seq<char>| var_views(keep@).contains(v) == inside;
    let mut r: Vec<VarName> = Vec::new();
    let mut i: usize = 0;
    while i < vs.len()
        invariant
            i <= vs.len(),
            pred == (|v: Seq<char>| var_views(keep@).contains(v) == inside),
            var_views(r@) == var_views(vs@).subrange(0, i as int).filter(pred),
        decreases vs.len() - i,
    {
        let ghost before = r@;
        proof {
            assert(var_views(vs@).subrange(0, i + 1).drop_last() =~= var_views(vs@).subrange(
                0,
                i as int,
            ));
            assert(var_views(vs@).subrange(0, i + 1).last() == vs@[i as int]@);
            reveal_with_fuel(Seq::<Seq<char>>::filter, 1);
        }
        if contains_var(keep, &vs[i]) == inside {
            r.push(vs[i].duplicate());
            assert(var_views(r@) =~= var_views(before).push(vs@[i as int]@));
        }
        i = i + 1;
    }
    assert(var_views(vs@).subrange(0, vs.len() as int) =~= var_views(vs@));
    r
}

/// The variables of `vs` that are in `set`, in order.
fn filter_in_set(vs: &Vec<VarName>, set: &Vec<VarName>) -> (r: Vec<VarName>)
    ensures
        var_views(r@) == var_views(vs@).filter(|v: Seq<char>| var_views(set@).contains(v)),
{
    let r = filter_vars(vs, set, true);
    assert(var_views(vs@).filter(|v: Seq<char>| var_views(set@).contains(v) == true)
        =~= var_views(vs@).filter(|v: Seq<char>| var_views(set@).contains(v))) by {
        assert((|v: Seq<char>| var_views(set@).contains(v) == true) =~= (|v: Seq<char>|
            var_views(set@).contains(v)));
    }
    r
}

impl Localisable for LOLASpecification {
    fn localise<L: LocalitySpec>(&self, locality_spec: &L) -> (r: Self)
        ensures
            r@ == spec_localise(self@, locality_spec.spec_local_vars()),
    {
        let local_vars = locality_spec.local_vars();
        let ghost local = var_views(local_vars@);
        let mut exprs = self.exprs.duplicate();
        exprs.retain_vars(&local_vars);
        let output_vars = filter_vars(&self.output_vars, &local_vars, true);
        let aux_info = filter_vars(&self.aux_info, &local_vars, true);
        let to_remove = filter_vars(&self.output_vars, &local_vars, false);
        // Every variable read by a remaining expression.
        let mut read: Vec<VarName> = Vec::new();
        let mut i: usize = 0;
        let n = exprs.len();
        while i < n
            invariant
                n == exprs.key_seq().len(),
                i <= n,
                forall|k: Seq<char>| #[trigger] exprs@.contains_key(k) <==> exprs.key_seq().contains(k),
                forall|v: Seq<char>|
                    #[trigger] var_views(read@).contains(v) <==> exists|j: int|
                        0 <= j < i && expr_inputs(exprs@[exprs.key_seq()[j]]).contains(v),
            decreases n - i,
        {
            let (_k, e) = exprs.entry_at(i);
            let mut ins = e.inputs();
            let ghost before = read@;
            let ghost added = ins@;
            read.append(&mut ins);
            proof {
                assert(read@ == before + added);
                assert(var_views(read@) =~= var_views(before) + var_views(added));
                assert forall|v: Seq<char>|
                    #[trigger] var_views(read@).contains(v) <==> exists|j: int|
                        0 <= j < i + 1 && expr_inputs(exprs@[exprs.key_seq()[j]]).contains(v) by {
                    if var_views(read@).contains(v) {
                        let q = choose|q: int|
                            0 <= q < var_views(read@).len() && var_views(read@)[q] == v;
                        if q < var_views(before).len() {
                            assert(var_views(before)[q] == v);
                            assert(var_views(before).contains(v));
                        } else {
                            assert(var_views(added)[q - var_views(before).len()] == v);
                            assert(expr_inputs(exprs@[exprs.key_seq()[i as int]]).contains(v));
                        }
                    }
                    if exists|j: int|
                        0 <= j < i + 1 && expr_inputs(exprs@[exprs.key_seq()[j]]).contains(v) {
                        let j = choose|j: int|
                            0 <= j < i + 1 && expr_inputs(exprs@[exprs.key_seq()[j]]).contains(v);
                        if j < i {
                            assert(var_views(before).contains(v));
                            let q = choose|q: int|
                                0 <= q < var_views(before).len() && var_views(before)[q] == v;
                            assert(var_views(read@)[q] == v);
                        } else {
                            let q = choose|q: int|
                                0 <= q < var_views(added).len() && var_views(added)[q] == v;
                            assert(var_views(read@)[var_views(before).len() + q] == v);
                        }
                    }
                }
            }
            i = i + 1;
        }
        proof {
            assert forall|v: Seq<char>| #[trigger]
                var_views(read@).contains(v) == read_vars(exprs@).contains(v) by {
                if var_views(read@).contains(v) {
                    let j = choose|j: int|
                        0 <= j < n && expr_inputs(exprs@[exprs.key_seq()[j]]).contains(v);
                    assert(exprs.key_seq().contains(exprs.key_seq()[j]));
                }
                if read_vars(exprs@).contains(v) {
                    let k = choose|k: Seq<char>|
                        exprs@.contains_key(k) && #[trigger] expr_inputs(exprs@[k]).contains(v);
                    let j = choose|j: int| 0 <= j < n && exprs.key_seq()[j] == k;
                }
            }
        }
        let mut candidates = copy_vars(&self.input_vars);
        let mut removed = to_remove;
        let ghost c0 = candidates@;
        let ghost r0 = removed@;
        candidates.append(&mut removed);
        proof {
            assert(candidates@ == c0 + r0);
            assert(var_views(candidates@) =~= var_views(c0) + var_views(r0));
        }
        let input_vars = filter_in_set(&candidates, &read);
        proof {
            assert((|v: Seq<char>| var_views(local_vars@).contains(v) == true) =~= (|v: Seq<char>|
                local.contains(v)));
            assert((|v: Seq<char>| var_views(local_vars@).contains(v) == false) =~= (|v: Seq<
                char,
            >| !local.contains(v)));
            assert((|v: Seq<char>| var_views(read@).contains(v)) =~= (|v: Seq<char>|
                read_vars(exprs@).contains(v)));
        }
        let r = LOLASpecification {
            input_vars,
            output_vars,
            exprs,
            type_annotations: self.type_annotations.duplicate(),
            aux_info,
        };
        assert(r@.input_vars =~= spec_localise(self@, local).input_vars);
        r
    }
}

/// Localising keeps only local outputs and their expressions, and reads
/// only variables that the original specification had as inputs or outputs.
pub proof fn lemma_localise_restricts(s: SpecV, local: Seq<Seq<char>>)
    ensures
        ({
            let l = spec_localise(s, local);
            &&& forall|v: Seq<char>| #[trigger] l.output_vars.contains(v) ==> local.contains(v)
            &&& forall|k: Seq<char>| #[trigger] l.exprs.contains_key(k) ==> local.contains(k)
            &&& forall|k: Seq<char>| #[trigger] l.exprs.contains_key(k) ==> s.exprs.contains_key(k)
            &&& forall|v: Seq<char>| #[trigger] l.input_vars.contains(v) ==> s.input_vars.contains(v)
                || s.output_vars.contains(v)
        }),
{
    let l = spec_localise(s, local);
    let keep = |v: Seq<char>| local.contains(v);
    assert forall|v: Seq<char>| #[trigger] l.output_vars.contains(v) implies local.contains(v) by {
        let i = choose|i: int| 0 <= i < l.output_vars.len() && l.output_vars[i] == v;
        s.output_vars.lemma_filter_pred(keep, i);
    }
    let dropped = |v: Seq<char>| !local.contains(v);
    lemma_filter_within(s.input_vars + s.output_vars.filter(dropped));
    lemma_filter_within(s.output_vars);
    assert forall|v: Seq<char>| #[trigger] l.input_vars.contains(v) implies s.input_vars.contains(v)
        || s.output_vars.contains(v) by {
        let cands = s.input_vars + s.output_vars.filter(dropped);
        assert(cands.contains(v));
        let i = choose|i: int| 0 <= i < cands.len() && cands[i] == v;
        if i >= s.input_vars.len() {
            assert(s.output_vars.filter(dropped)[i - s.input_vars.len()] == v);
            assert(s.output_vars.filter(dropped).contains(v));
        } else {
            assert(s.input_vars[i] == v);
        }
    }
}

/// What a filter keeps was in the sequence, whatever the predicate.
proof fn lemma_filter_within<A>(s: Seq<A>)
    ensures
        forall|p: spec_fn(A) -> bool, x: A| #[trigger] s.filter(p).contains(x) ==> s.contains(x),
{
    assert forall|p: spec_fn(A) -> bool, x: A| #[trigger] s.filter(p).contains(x) implies s.contains(
        x,
    ) by {
        s.lemma_filter_contains_rev(p, x);
    }
}

/// Filtering twice by the same predicate filters once.
proof fn lemma_filter_twice(s: Seq<Seq<char>>, p: spec_fn(Seq<char>) -> bool)
    ensures
        s.filter(p).filter(p) == s.filter(p),
    decreases s.len(),
{
    reveal_with_fuel(Seq::<Seq<char>>::filter, 1);
    if s.len() > 0 {
        lemma_filter_twice(s.drop_last(), p);
        let t = s.drop_last().filter(p);
        if p(s.last()) {
            assert(t.push(s.last()).drop_last() =~= t);
        }
    }
}

/// Filtering away every element that the sequence's elements all fail to
/// be kept by leaves nothing.
proof fn lemma_filter_none(s: Seq<Seq<char>>, p: spec_fn(Seq<char>) -> bool)
    requires
        forall|i: int| 0 <= i < s.len() ==> !p(#[trigger] s[i]),
    ensures
        s.filter(p) == Seq::<Seq<char>>::empty(),
    decreases s.len(),
{
    reveal_with_fuel(Seq::<Seq<char>>::filter, 1);
    if s.len() > 0 {
        lemma_filter_none(s.drop_last(), p);
        assert(!p(s[s.len() - 1]));
    }
}

/// Localising to the same variables a second time changes nothing.
pub proof fn lemma_localise_idempotent(s: SpecV, local: Seq<Seq<char>>)
    ensures
        spec_localise(spec_localise(s, local), local) == spec_localise(s, local),
{
    broadcast use vstd::seq_lib::group_filter_ensures;

    let l = spec_localise(s, local);
    let l2 = spec_localise(l, local);
    let keep = |v: Seq<char>| local.contains(v);
    let drop = |v: Seq<char>| !local.contains(v);
    assert(l.exprs.restrict(local.to_set()) =~= l.exprs);
    let used = read_vars(l.exprs);
    let in_used = |v: Seq<char>| used.contains(v);
    assert(l.output_vars == s.output_vars.filter(keep));
    assert forall|i: int| 0 <= i < l.output_vars.len() implies !drop(#[trigger] l.output_vars[i]) by {
        assert(keep(s.output_vars.filter(keep)[i]));
    }
    lemma_filter_none(l.output_vars, drop);
    assert(l.input_vars + l.output_vars.filter(drop) =~= l.input_vars);
    lemma_filter_twice(s.input_vars + s.output_vars.filter(drop), in_used);
    lemma_filter_twice(s.output_vars, keep);
    lemma_filter_twice(s.aux_info, keep);
    assert(l2.input_vars == l.input_vars);
    assert(l2.output_vars == l.output_vars);
    assert(l2.aux_info == l.aux_info);
    assert(l2.exprs == l.exprs);
}

/// What a filter keeps is exactly what the sequence holds and the predicate
/// accepts.
proof fn lemma_filter_exact<A>(s: Seq<A>, p: spec_fn(A) -> bool)
    ensures
        forall|x: A| #[trigger] s.filter(p).contains(x) <==> (s.contains(x) && p(x)),
{
    broadcast use vstd::seq_lib::group_filter_ensures;

    assert forall|x: A| #[trigger] s.filter(p).contains(x) <==> (s.contains(x) && p(x)) by {
        if s.filter(p).contains(x) {
            s.lemma_filter_contains_rev(p, x);
            let i = choose|i: int| 0 <= i < s.filter(p).len() && s.filter(p)[i] == x;
            assert(p(s.filter(p)[i]));
        }
        if s.contains(x) && p(x) {
            let i = choose|i: int| 0 <= i < s.len() && s[i] == x;
            s.lemma_filter_contains(p, i);
        }
    }
}

/// Localising keeps exactly the local part of a specification: an output,
/// an auxiliary mark or an expression remains if and only if it was there
/// and its variable is monitored locally, each expression unchanged; and a
/// variable is an input afterwards if and only if a remaining expression
/// reads it and it was an input or an output that is no longer computed
/// here. So when every auxiliary variable of `s` is one of its outputs, every
/// auxiliary variable of the localised specification is one of its outputs.
pub proof fn lemma_localise_keeps_local(s: SpecV, local: Seq<Seq<char>>)
    ensures
        ({
            let l = spec_localise(s, local);
            &&& forall|v: Seq<char>| #[trigger] l.output_vars.contains(v) <==> (
                s.output_vars.contains(v) && local.contains(v))
            &&& forall|v: Seq<char>| #[trigger] l.aux_info.contains(v) <==> (s.aux_info.contains(v)
                && local.contains(v))
            &&& forall|k: Seq<char>| #[trigger] l.exprs.contains_key(k) <==> (
                s.exprs.contains_key(k) && local.contains(k))
            &&& forall|k: Seq<char>| #[trigger] l.exprs.contains_key(k) ==> l.exprs[k] == s.exprs[k]
            &&& forall|v: Seq<char>| #[trigger] l.input_vars.contains(v) <==> (read_vars(
                l.exprs,
            ).contains(v) && (s.input_vars.contains(v) || (s.output_vars.contains(v)
                && !local.contains(v))))
            &&& (forall|v: Seq<char>| #[trigger] s.aux_info.contains(v) ==> s.output_vars.contains(v))
                ==> (forall|v: Seq<char>| #[trigger] l.aux_info.contains(v)
                ==> l.output_vars.contains(v))
        }),
{
    let l = spec_localise(s, local);
    let keep = |v: Seq<char>| local.contains(v);
    let drop = |v: Seq<char>| !local.contains(v);
    let used = read_vars(l.exprs);
    let in_used = |v: Seq<char>| used.contains(v);
    let cands = s.input_vars + s.output_vars.filter(drop);
    lemma_filter_exact(s.output_vars, keep);
    lemma_filter_exact(s.aux_info, keep);
    lemma_filter_exact(s.output_vars, drop);
    lemma_filter_exact(cands, in_used);
    assert(l.output_vars == s.output_vars.filter(keep));
    assert(l.aux_info == s.aux_info.filter(keep));
    assert(l.input_vars == cands.filter(in_used));
    assert forall|v: Seq<char>| #[trigger] cands.contains(v) <==> (s.input_vars.contains(v) || (
        s.output_vars.contains(v) && !local.contains(v))) by {
        if cands.contains(v) {
            let i = choose|i: int| 0 <= i < cands.len() && cands[i] == v;
            if i >= s.input_vars.len() {
                assert(s.output_vars.filter(drop)[i - s.input_vars.len()] == v);
                assert(s.output_vars.filter(drop).contains(v));
            } else {
                assert(s.input_vars[i] == v);
            }
        }
        if s.input_vars.contains(v) {
            let i = choose|i: int| 0 <= i < s.input_vars.len() && s.input_vars[i] == v;
            assert(cands[i] == v);
        } else if s.output_vars.contains(v) && !local.contains(v) {
            assert(s.output_vars.filter(drop).contains(v));
            let i = choose|i: int|
                0 <= i < s.output_vars.filter(drop).len() && s.output_vars.filter(drop)[i] == v;
            assert(cands[s.input_vars.len() + i] == v);
        }
    }
}

} // verus!
