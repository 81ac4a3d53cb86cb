//! The resolution pipeline behind project initialization: seed
//! selection, dependency closure, final-set filtering, missing-part
//! validation and conflict checking.
use vstd::prelude::*;

use crate::cmd::SharedArgs;
use crate::config::base_parts_store_uri;
use crate::config::bootstrap_part_uri;
use crate::config::bootstrap_parts_store_uri;
use crate::config::spec_base_parts_store_uri;
use crate::config::spec_bootstrap_part_uri;
use crate::config::spec_bootstrap_parts_store_uri;
use crate::parts::FlakePartTuple;
use crate::parts::FlakePartsStore;
use crate::parts::StoreView;
use crate::parts::TupleView;
use crate::parts::clone_string_vec;
use crate::parts::matches_any_request;
use crate::parts::spec_in_closure;
use crate::parts::spec_matches_any;
use crate::parts::spec_missing;
use crate::parts::spec_seed_set;
use crate::parts::spec_uri_of;
use crate::parts::spec_flagged;
use crate::parts::spec_uris_of;
use crate::parts::vec_contains_string;

verus! {

/// How to treat a file that already exists at the target location.
#[derive(Debug, Copy, Clone, PartialEq, Eq, Structural)]
pub enum InitStrategy {
    /// Keep the existing file.
    Skip,
    /// Replace the existing file.
    Overwrite,
    /// Reconcile the two contents line by line.
    Merge,
}

/// Arguments of the project-initialization command.
pub struct InitCommand {
    pub shared_args: SharedArgs,
    /// Target directory of the new project.
    pub path: String,
    /// The parts the user asked for.
    pub parts: Vec<String>,
    /// Collision policy for files already present at the target.
    pub strategy: InitStrategy,
    /// Keep going when accepted parts declare conflicts.
    pub ignore_conflicts: bool,
    /// Keep going when a declared dependency matches no loaded part.
    pub ignore_unresolved_deps: bool,
    /// Overwrite files of a non-empty target directory.
    pub force: bool,
}

/// Why a requested part set could not be resolved.
#[derive(Debug)]
pub enum PartsTuplesParsingError {
    /// Explicitly requested parts that matched no loaded tuple.
    MissingPartsError(Vec<String>),
    /// Canonical identifiers of accepted parts declared incompatible.
    ConflictingPartsError(Vec<String>),
    /// Declared dependencies that matched no loaded tuple.
    UnresolvedDependenciesError(Vec<String>),
}

/// The tuples contributed by one store: each of its parts paired with
/// the store's reference.
pub open spec fn spec_store_tuples(s: StoreView) -> Seq<TupleView> {
    s.parts.map_values(|p| (TupleView { store_uri: s.flake_uri, part: p }))
}

/// The pool: every loaded store's tuples, in store order then part
/// order.
pub open spec fn spec_pool_of(stores: Seq<StoreView>) -> Seq<TupleView>
    decreases stores.len(),
{
    if stores.len() == 0 {
        Seq::empty()
    } else {
        spec_pool_of(stores.drop_last()) + spec_store_tuples(stores.last())
    }
}

/// The pool indices seeded by the user's requests: every tuple named by
/// some requested string.
pub open spec fn spec_user_seed_set(pool: Seq<TupleView>, reqs: Seq<Seq<char>>) -> Set<int> {
    Set::new(|j: int| 0 <= j < pool.len() && spec_matches_any(pool[j], reqs))
}

/// A tuple belongs to the final accepted set when a user request names
/// it, or its canonical identifier or bare name stands in the
/// dependency closure of the seeds.
pub open spec fn spec_accepted(pool: Seq<TupleView>, reqs: Seq<Seq<char>>, t: TupleView) -> bool {
    spec_matches_any(t, reqs) || spec_in_closure(
        pool,
        spec_user_seed_set(pool, reqs),
        spec_uri_of(t, None),
    ) || spec_in_closure(pool, spec_user_seed_set(pool, reqs), t.part.name)
}

/// The accepted tuples among the first `n` of `pool`, in pool order.
pub open spec fn spec_final_take(pool: Seq<TupleView>, reqs: Seq<Seq<char>>, n: int) -> Seq<
    TupleView,
>
    decreases n,
{
    if n <= 0 {
        Seq::empty()
    } else {
        let rest = spec_final_take(pool, reqs, n - 1);
        if spec_accepted(pool, reqs, pool[n - 1]) {
            rest.push(pool[n - 1])
        } else {
            rest
        }
    }
}

/// The final accepted set for a pool and a list of user requests.
pub open spec fn spec_final_set(pool: Seq<TupleView>, reqs: Seq<Seq<char>>) -> Seq<TupleView> {
    spec_final_take(pool, reqs, pool.len() as int)
}

/// Resolve the user's requested parts against the loaded stores.
///
/// The stores' parts are flattened into a pool of store-qualified
/// tuples; the tuples named by a request seed a transitive dependency
/// closure; the final set keeps every tuple named by a request or by a
/// closure identifier.  A dependency no tuple carries, a request no
/// accepted tuple matches, and a conflict declared against an accepted
/// tuple are reported in that order, each as its own error.
#[verifier::loop_isolation(false)]
pub fn parse_required_parts_tuples(cmd: &InitCommand, stores: &Vec<FlakePartsStore>) -> (r: Result<
    Vec<FlakePartTuple>,
    PartsTuplesParsingError,
>)
    ensures
        ({
            let pool = spec_pool_of(stores.deep_view());
            let reqs = cmd.parts.deep_view();
            let seeds = spec_user_seed_set(pool, reqs);
            let fin = spec_final_set(pool, reqs);
            match r {
                Result::Err(PartsTuplesParsingError::UnresolvedDependenciesError(us)) => {
                    &&& us@.len() > 0
                    &&& us.deep_view().no_duplicates()
                    &&& forall|u: Seq<char>| #[trigger]
                        us.deep_view().contains(u) <==> spec_in_closure(pool, seeds, u)
                            && !crate::parts::spec_has_match(pool, u)
                },
                Result::Err(PartsTuplesParsingError::MissingPartsError(ms)) => {
                    &&& forall|u: Seq<char>| #[trigger]
                        spec_in_closure(pool, seeds, u) ==> crate::parts::spec_has_match(pool, u)
                    &&& ms.deep_view() == spec_missing(fin, reqs)
                    &&& ms@.len() > 0
                },
                Result::Err(PartsTuplesParsingError::ConflictingPartsError(cs)) => {
                    &&& forall|u: Seq<char>| #[trigger]
                        spec_in_closure(pool, seeds, u) ==> crate::parts::spec_has_match(pool, u)
                    &&& spec_missing(fin, reqs).len() == 0
                    &&& !cmd.ignore_conflicts
                    &&& cs.deep_view() == spec_uris_of(spec_flagged(fin))
                    &&& cs@.len() > 0
                },
                Result::Ok(v) => {
                    &&& forall|u: Seq<char>| #[trigger]
                        spec_in_closure(pool, seeds, u) ==> crate::parts::spec_has_match(pool, u)
                    &&& spec_missing(fin, reqs).len() == 0
                    &&& (cmd.ignore_conflicts || spec_flagged(fin).len() == 0)
                    &&& v.deep_view() == fin
                },
            }
        }),
{
    let ghost storesv = stores.deep_view();
    let ghost reqsv = cmd.parts.deep_view();

    let mut all_parts_tuples: Vec<FlakePartTuple> = Vec::new();
    let mut si: usize = 0;
    proof {
        assert(all_parts_tuples.deep_view() =~= spec_pool_of(storesv.take(0)));
    }
    while si < stores.len()
        invariant
            si <= stores.len(),
            all_parts_tuples.deep_view() == spec_pool_of(storesv.take(si as int)),
        decreases stores.len() - si,
    {
        let store = &stores[si];
        let ghost sv = storesv[si as int];
        let parts_len = store.parts.len();
        let mut pi: usize = 0;
        proof {
            assert(spec_store_tuples(sv).take(0) =~= Seq::<TupleView>::empty());
            assert(all_parts_tuples.deep_view() =~= spec_pool_of(storesv.take(si as int))
                + spec_store_tuples(sv).take(0));
        }
        while pi < parts_len
            invariant
                pi <= parts_len,
                all_parts_tuples.deep_view() == spec_pool_of(storesv.take(si as int))
                    + spec_store_tuples(sv).take(pi as int),
            decreases parts_len - pi,
        {
            let part = store.parts[pi].clone();
            let tuple = FlakePartTuple::new(store, part);
            let ghost old_all = all_parts_tuples.deep_view();
            all_parts_tuples.push(tuple);
            proof {
                assert(spec_store_tuples(sv)[pi as int] == (TupleView {
                    store_uri: sv.flake_uri,
                    part: sv.parts[pi as int],
                }));
                assert(spec_store_tuples(sv).take(pi + 1) =~= spec_store_tuples(sv).take(
                    pi as int,
                ).push(spec_store_tuples(sv)[pi as int]));
                assert(all_parts_tuples.deep_view() =~= old_all.push(
                    spec_store_tuples(sv)[pi as int],
                ));
                assert(all_parts_tuples.deep_view() =~= spec_pool_of(storesv.take(si as int))
                    + spec_store_tuples(sv).take(pi + 1));
            }
            pi = pi + 1;
        }
        proof {
            assert(spec_store_tuples(sv).take(parts_len as int) =~= spec_store_tuples(sv));
            assert(storesv.take(si + 1).drop_last() =~= storesv.take(si as int));
            assert(storesv.take(si + 1).last() == sv);
            assert(all_parts_tuples.deep_view() =~= spec_pool_of(storesv.take(si + 1)));
        }
        si = si + 1;
    }
    proof {
        assert(storesv.take(stores@.len() as int) =~= storesv);
    }
    let ghost poolv = all_parts_tuples.deep_view();

    let mut start_indices: Vec<usize> = Vec::new();
    let mut idx: usize = 0;
    while idx < all_parts_tuples.len()
        invariant
            idx <= all_parts_tuples@.len(),
            forall|k: int| 0 <= k < start_indices@.len()
                ==> (#[trigger] start_indices@[k]) < all_parts_tuples@.len(),
            forall|k: int| #![trigger start_indices@[k]] 0 <= k < start_indices@.len()
                ==> spec_matches_any(poolv[start_indices@[k] as int], reqsv),
            forall|j: int| 0 <= j < idx && spec_matches_any(#[trigger] poolv[j], reqsv)
                ==> spec_seed_set(start_indices@).contains(j),
        decreases all_parts_tuples@.len() - idx,
    {
        let ghost old_indices = start_indices@;
        if matches_any_request(&all_parts_tuples[idx], &cmd.parts) {
            start_indices.push(idx);
            proof {
                assert(start_indices@[start_indices@.len() - 1] == idx);
                assert(spec_seed_set(start_indices@).contains(idx as int));
            }
        }
        proof {
            assert forall|j: int| 0 <= j < idx + 1 && spec_matches_any(
                #[trigger] poolv[j],
                reqsv,
            ) implies spec_seed_set(start_indices@).contains(j) by {
                if j < idx {
                    let k = choose|k: int|
                        0 <= k < old_indices.len() && old_indices[k] as int == j;
                    assert(start_indices@[k] as int == j);
                } else {
                    assert(start_indices@[start_indices@.len() - 1] as int == j);
                }
            }
        }
        idx = idx + 1;
    }
    proof {
        assert(spec_seed_set(start_indices@) =~= spec_user_seed_set(poolv, reqsv)) by {
            assert forall|j: int| #[trigger]
                spec_seed_set(start_indices@).contains(j) implies spec_user_seed_set(
                poolv,
                reqsv,
            ).contains(j) by {
                let k = choose|k: int|
                    0 <= k < start_indices@.len() && start_indices@[k] as int == j;
                assert(spec_matches_any(poolv[start_indices@[k] as int], reqsv));
            }
        }
        assert(spec_seed_set(start_indices@) == spec_user_seed_set(poolv, reqsv));
    }
    let ghost seedsv = spec_user_seed_set(poolv, reqsv);

    let (resolved_deps, unresolved_deps) = FlakePartTuple::resolve_dependencies_of(
        &all_parts_tuples,
        start_indices,
    );

    if unresolved_deps.len() > 0 {
        return Result::Err(
            PartsTuplesParsingError::UnresolvedDependenciesError(unresolved_deps),
        );
    }
    proof {
        assert forall|u: Seq<char>| #[trigger]
            spec_in_closure(poolv, seedsv, u) implies crate::parts::spec_has_match(
            poolv,
            u,
        ) by {
            if !crate::parts::spec_has_match(poolv, u) {
                assert(unresolved_deps.deep_view().contains(u));
                assert(unresolved_deps.deep_view().len() == 0);
            }
        }
    }

    let mut final_parts_tuples: Vec<FlakePartTuple> = Vec::new();
    let mut fi: usize = 0;
    proof {
        assert(final_parts_tuples.deep_view() =~= spec_final_take(poolv, reqsv, 0));
    }
    while fi < all_parts_tuples.len()
        invariant
            fi <= all_parts_tuples@.len(),
            final_parts_tuples.deep_view() == spec_final_take(poolv, reqsv, fi as int),
        decreases all_parts_tuples@.len() - fi,
    {
        let part_tuple = &all_parts_tuples[fi];
        let flake_uri = part_tuple.to_flake_uri(None);
        let accepted = matches_any_request(part_tuple, &cmd.parts) || vec_contains_string(
            &resolved_deps,
            &flake_uri,
        ) || vec_contains_string(&resolved_deps, &part_tuple.part.name);
        proof {
            assert(accepted == spec_accepted(poolv, reqsv, poolv[fi as int]));
        }
        let ghost old_final = final_parts_tuples.deep_view();
        if accepted {
            final_parts_tuples.push(part_tuple.clone());
            proof {
                assert(final_parts_tuples.deep_view() =~= old_final.push(poolv[fi as int]));
            }
        }
        fi = fi + 1;
    }
    proof {
        assert(final_parts_tuples.deep_view() =~= spec_final_set(poolv, reqsv));
    }
    let ghost finv = spec_final_set(poolv, reqsv);

    let missing_parts = FlakePartTuple::find_missing_parts_in(&final_parts_tuples, &cmd.parts);
    if missing_parts.len() > 0 {
        return Result::Err(PartsTuplesParsingError::MissingPartsError(missing_parts));
    }

    if !cmd.ignore_conflicts {
        let conflicts = FlakePartTuple::find_conflicting_parts_in(&final_parts_tuples);
        if conflicts.len() > 0 {
            let ghost flaggedv = spec_flagged(finv);
            let mut conflict_uris: Vec<String> = Vec::new();
            let mut k: usize = 0;
            proof {
                assert(conflict_uris.deep_view() =~= spec_uris_of(flaggedv.take(0)));
            }
            while k < conflicts.len()
                invariant
                    k <= conflicts@.len(),
                    conflict_uris.deep_view() == spec_uris_of(flaggedv.take(k as int)),
                decreases conflicts@.len() - k,
            {
                let uri = conflicts[k].to_flake_uri(None);
                let ghost old_uris = conflict_uris.deep_view();
                conflict_uris.push(uri);
                proof {
                    assert(flaggedv.take(k + 1).drop_last() =~= flaggedv.take(k as int));
                    assert(flaggedv.take(k + 1).last() == flaggedv[k as int]);
                    assert(conflict_uris.deep_view() =~= old_uris.push(
                        spec_uri_of(flaggedv[k as int], None),
                    ));
                }
                k = k + 1;
            }
            proof {
                assert(flaggedv.take(conflicts@.len() as int) =~= flaggedv);
            }
            return Result::Err(PartsTuplesParsingError::ConflictingPartsError(conflict_uris));
        }
    }

    Result::Ok(final_parts_tuples)
}

/// The part stores the initialization command loads: the user's, then
/// (unless disabled) the builder's base store, then always the
/// bootstrap store.
pub fn effective_parts_stores_for_init(user: &Vec<String>, disable_base_parts: bool) -> (r: Vec<
    String,
>)
    ensures
        r.deep_view() == if disable_base_parts {
            user.deep_view().push(spec_bootstrap_parts_store_uri())
        } else {
            user.deep_view().push(spec_base_parts_store_uri()).push(
                spec_bootstrap_parts_store_uri(),
            )
        },
{
    let mut out = clone_string_vec(user);
    let ghost base = out.deep_view();
    if !disable_base_parts {
        out.push(base_parts_store_uri());
        proof {
            assert(out.deep_view() =~= base.push(spec_base_parts_store_uri()));
        }
    }
    let ghost mid = out.deep_view();
    out.push(bootstrap_parts_store_uri());
    proof {
        assert(out.deep_view() =~= mid.push(spec_bootstrap_parts_store_uri()));
    }
    out
}

/// The requested part list the initialization command resolves: the
/// user's requests plus the bootstrap part.
pub fn parts_with_bootstrap(user: &Vec<String>) -> (r: Vec<String>)
    ensures
        r.deep_view() == user.deep_view().push(spec_bootstrap_part_uri()),
{
    let mut out = clone_string_vec(user);
    let ghost base = out.deep_view();
    out.push(bootstrap_part_uri());
    proof {
        assert(out.deep_view() =~= base.push(spec_bootstrap_part_uri()));
    }
    out
}

proof fn lemma_final_take_props(pool: Seq<TupleView>, reqs: Seq<Seq<char>>, n: int)
    requires
        0 <= n <= pool.len(),
    ensures
        forall|i: int| #![trigger spec_final_take(pool, reqs, n)[i]]
            0 <= i < spec_final_take(pool, reqs, n).len() ==> exists|k: int|
                0 <= k < n && spec_final_take(pool, reqs, n)[i] == pool[k],
        forall|i: int| #![trigger spec_final_take(pool, reqs, n)[i]]
            0 <= i < spec_final_take(pool, reqs, n).len() ==> spec_accepted(
                pool,
                reqs,
                spec_final_take(pool, reqs, n)[i],
            ),
        forall|k: int| 0 <= k < n && spec_accepted(pool, reqs, #[trigger] pool[k])
            ==> spec_final_take(pool, reqs, n).contains(pool[k]),
    decreases n,
{
    if n == 0 {
    } else {
        lemma_final_take_props(pool, reqs, n - 1);
        let rest = spec_final_take(pool, reqs, n - 1);
        let fin = spec_final_take(pool, reqs, n);
        if spec_accepted(pool, reqs, pool[n - 1]) {
            assert(fin == rest.push(pool[n - 1]));
            assert forall|i: int| 0 <= i < fin.len() implies exists|k: int|
                0 <= k < n && #[trigger] fin[i] == pool[k] by {
                if i < rest.len() {
                    assert(fin[i] == rest[i]);
                    let k = choose|k: int| 0 <= k < n - 1 && rest[i] == pool[k];
                    assert(fin[i] == pool[k]);
                } else {
                    assert(fin[i] == pool[n - 1]);
                }
            }
            assert forall|k: int| 0 <= k < n && spec_accepted(pool, reqs, #[trigger] pool[k])
                implies fin.contains(pool[k]) by {
                if k < n - 1 {
                    assert(rest.contains(pool[k]));
                    let i = choose|i: int| 0 <= i < rest.len() && rest[i] == pool[k];
                    assert(fin[i] == pool[k]);
                } else {
                    assert(fin[fin.len() - 1] == pool[n - 1]);
                }
            }
        } else {
            assert(fin == rest);
            assert forall|k: int| 0 <= k < n && spec_accepted(pool, reqs, #[trigger] pool[k])
                implies fin.contains(pool[k]) by {
                assert(k != n - 1);
            }
        }
    }
}

/// Every identifier in the dependency closure carries the fragment
/// separator: it came out of normalization.
proof fn lemma_closure_has_hash(pool: Seq<TupleView>, seeds: Set<int>, u: Seq<char>)
    requires
        spec_in_closure(pool, seeds, u),
    ensures
        crate::parts::spec_contains_hash(u),
{
    let fuel = choose|fuel: nat| crate::parts::spec_required(pool, seeds, u, fuel);
    let j = choose|j: int|
        crate::parts::spec_expanded(pool, seeds, j, fuel) && crate::parts::spec_deps_norm(
            pool[j],
        ).contains(u);
    let deps = pool[j].part.metadata.dependencies;
    let i = choose|i: int|
        0 <= i < crate::parts::spec_deps_norm(pool[j]).len() && crate::parts::spec_deps_norm(
            pool[j],
        )[i] == u;
    crate::parts::lemma_normalize_contains_hash(deps[i], pool[j].store_uri, None);
}

/// Closure completeness: every normalized dependency of a tuple in the
/// final accepted set is either carried by some tuple of the final set
/// or left as an unresolved dependency (in the closure, matched by no
/// pool tuple).  Requires a well-formed pool: canonical identifiers
/// pairwise distinct and part names free of the fragment separator.
pub proof fn lemma_closure_completeness(
    pool: Seq<TupleView>,
    reqs: Seq<Seq<char>>,
    t: TupleView,
    d: Seq<char>,
)
    requires
        forall|i: int, j: int| 0 <= i < j < pool.len()
            ==> spec_uri_of(#[trigger] pool[i], None) != spec_uri_of(#[trigger] pool[j], None),
        forall|i: int| 0 <= i < pool.len()
            ==> !crate::parts::spec_contains_hash((#[trigger] pool[i]).part.name),
        spec_final_set(pool, reqs).contains(t),
        crate::parts::spec_deps_norm(t).contains(d),
    ensures
        (exists|k: int|
            0 <= k < spec_final_set(pool, reqs).len() && spec_uri_of(
                #[trigger] spec_final_set(pool, reqs)[k],
                None,
            ) == d) || (spec_in_closure(pool, spec_user_seed_set(pool, reqs), d)
            && !crate::parts::spec_has_match(pool, d)),
{
    let seeds = spec_user_seed_set(pool, reqs);
    let fin = spec_final_set(pool, reqs);
    lemma_final_take_props(pool, reqs, pool.len() as int);
    let i = choose|i: int| 0 <= i < fin.len() && fin[i] == t;
    let k = choose|k: int| 0 <= k < pool.len() && fin[i] == pool[k];
    assert(spec_accepted(pool, reqs, t));

    // The tuple was expanded: its dependencies are in the closure.
    assert(spec_in_closure(pool, seeds, d)) by {
        if spec_matches_any(t, reqs) {
            assert(seeds.contains(k));
            assert(crate::parts::spec_expanded(pool, seeds, k, 0));
            assert(crate::parts::spec_deps_norm(pool[k]).contains(d));
            assert(crate::parts::spec_required(pool, seeds, d, 0));
        } else if spec_in_closure(pool, seeds, spec_uri_of(t, None)) {
            let fuel = choose|fuel: nat|
                crate::parts::spec_required(pool, seeds, spec_uri_of(t, None), fuel);
            assert(crate::parts::spec_first_match_at(pool, spec_uri_of(t, None), k)) by {
                assert(crate::parts::spec_matches_at(pool, spec_uri_of(t, None), k));
                assert forall|k2: int| 0 <= k2 < k implies !crate::parts::spec_matches_at(
                    pool,
                    spec_uri_of(t, None),
                    k2,
                ) by {
                    assert(spec_uri_of(pool[k2], None) != spec_uri_of(pool[k], None));
                }
            }
            assert(crate::parts::spec_expanded(pool, seeds, k, (fuel + 1) as nat));
            assert(crate::parts::spec_deps_norm(pool[k]).contains(d));
            assert(crate::parts::spec_required(pool, seeds, d, (fuel + 1) as nat));
        } else {
            assert(spec_in_closure(pool, seeds, t.part.name));
            lemma_closure_has_hash(pool, seeds, t.part.name);
            assert(!crate::parts::spec_contains_hash(pool[k].part.name));
            assert(false);
        }
    }

    if crate::parts::spec_has_match(pool, d) {
        let j = choose|j: int| crate::parts::spec_matches_at(pool, d, j);
        assert(spec_accepted(pool, reqs, pool[j])) by {
            assert(spec_in_closure(pool, seeds, spec_uri_of(pool[j], None)));
        }
        assert(fin.contains(pool[j]));
        let k2 = choose|k2: int| 0 <= k2 < fin.len() && fin[k2] == pool[j];
        assert(spec_uri_of(fin[k2], None) == d);
    }
}

/// No duplicate canonical identifiers in the final accepted set,
/// whenever the pool itself carries none.
pub proof fn lemma_final_set_no_duplicate_uris(pool: Seq<TupleView>, reqs: Seq<Seq<char>>)
    requires
        forall|i: int, j: int| 0 <= i < j < pool.len()
            ==> spec_uri_of(#[trigger] pool[i], None) != spec_uri_of(#[trigger] pool[j], None),
    ensures
        forall|i: int, j: int| 0 <= i < j < spec_final_set(pool, reqs).len()
            ==> spec_uri_of(#[trigger] spec_final_set(pool, reqs)[i], None) != spec_uri_of(
                #[trigger] spec_final_set(pool, reqs)[j],
                None,
            ),
{
    lemma_final_take_distinct(pool, reqs, pool.len() as int);
}

proof fn lemma_final_take_distinct(pool: Seq<TupleView>, reqs: Seq<Seq<char>>, n: int)
    requires
        0 <= n <= pool.len(),
        forall|i: int, j: int| 0 <= i < j < pool.len()
            ==> spec_uri_of(#[trigger] pool[i], None) != spec_uri_of(#[trigger] pool[j], None),
    ensures
        forall|i: int| #![trigger spec_final_take(pool, reqs, n)[i]]
            0 <= i < spec_final_take(pool, reqs, n).len() ==> exists|k: int|
                0 <= k < n && spec_final_take(pool, reqs, n)[i] == pool[k],
        forall|i: int, j: int| 0 <= i < j < spec_final_take(pool, reqs, n).len()
            ==> spec_uri_of(#[trigger] spec_final_take(pool, reqs, n)[i], None) != spec_uri_of(
                #[trigger] spec_final_take(pool, reqs, n)[j],
                None,
            ),
    decreases n,
{
    if n == 0 {
    } else {
        lemma_final_take_distinct(pool, reqs, n - 1);
        let rest = spec_final_take(pool, reqs, n - 1);
        let fin = spec_final_take(pool, reqs, n);
        if spec_accepted(pool, reqs, pool[n - 1]) {
            assert(fin == rest.push(pool[n - 1]));
            assert forall|i: int| 0 <= i < fin.len() implies exists|k: int|
                0 <= k < n && #[trigger] fin[i] == pool[k] by {
                if i < rest.len() {
                    assert(fin[i] == rest[i]);
                    let k = choose|k: int| 0 <= k < n - 1 && rest[i] == pool[k];
                    assert(fin[i] == pool[k]);
                } else {
                    assert(fin[i] == pool[n - 1]);
                }
            }
            assert forall|i: int, j: int| 0 <= i < j < fin.len()
                implies spec_uri_of(#[trigger] fin[i], None) != spec_uri_of(
                #[trigger] fin[j],
                None,
            ) by {
                if j < rest.len() {
                    assert(fin[i] == rest[i] && fin[j] == rest[j]);
                } else {
                    assert(fin[j] == pool[n - 1]);
                    assert(fin[i] == rest[i]);
                    let k = choose|k: int| 0 <= k < n - 1 && rest[i] == pool[k];
                    assert(spec_uri_of(pool[k], None) != spec_uri_of(pool[n - 1], None));
                }
            }
        }
    }
}

} // verus!
