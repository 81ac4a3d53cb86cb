//! Part and store model, reference normalization, and the dependency
//! resolver.
use vstd::prelude::*;

verus! {

/// True when the reference string already carries a fragment separator.
pub open spec fn spec_contains_hash(s: Seq<char>) -> bool {
    exists|i: int| 0 <= i < s.len() && s[i] == '#'
}

/// Canonical form of a part reference `target` relative to a store
/// reference `flake`, optionally scoped to a collection `derivation`.
pub open spec fn spec_normalize(
    target: Seq<char>,
    flake: Seq<char>,
    derivation: Option<Seq<char>>,
) -> Seq<char> {
    if spec_contains_hash(target) {
        target
    } else if spec_contains_hash(flake) {
        flake + "/"@ + target
    } else {
        match derivation {
            Some(d) => flake + "#"@ + d + "/"@ + target,
            None => flake + "#default/"@ + target,
        }
    }
}

/// Whether `s` holds the character `'#'`.
fn contains_hash(s: &str) -> (r: bool)
    ensures
        r == spec_contains_hash(s@),
{
    let len: usize = s.unicode_len();
    let mut i: usize = 0;
    while i < len
        invariant
            i <= len,
            len == s@.len(),
            forall|j: int| 0 <= j < i ==> s@[j] != '#',
        decreases len - i,
    {
        if s.get_char(i) == '#' {
            return true;
        }
        i = i + 1;
    }
    false
}

/// Canonicalize a part reference into a fully qualified identifier.
///
/// A `target` that already carries `#` is returned unchanged; a `flake`
/// base that carries `#` is extended with `/target`; otherwise the
/// collection named by `derivation` (or the `default` placeholder) is
/// interposed between the base and the target.
pub fn normalize_flake_string(target: &str, flake: &str, derivation: Option<&str>) -> (r: String)
    ensures
        r@ == spec_normalize(
            target@,
            flake@,
            match derivation {
                Some(d) => Some(d@),
                None => None,
            },
        ),
{
    if contains_hash(target) {
        String::from_str(target)
    } else if contains_hash(flake) {
        let mut r = String::from_str(flake);
        r.append("/");
        r.append(target);
        proof {
            assert(r@ == flake@ + "/"@ + target@);
        }
        r
    } else if let Some(d) = derivation {
        let mut r = String::from_str(flake);
        r.append("#");
        r.append(d);
        r.append("/");
        r.append(target);
        proof {
            assert(r@ == flake@ + "#"@ + d@ + "/"@ + target@);
        }
        r
    } else {
        let mut r = String::from_str(flake);
        r.append("#default/");
        r.append(target);
        r
    }
}

/// The canonical form of a reference always carries `#`.
pub proof fn lemma_normalize_contains_hash(
    target: Seq<char>,
    flake: Seq<char>,
    derivation: Option<Seq<char>>,
)
    ensures
        spec_contains_hash(spec_normalize(target, flake, derivation)),
{
    reveal_strlit("#");
    reveal_strlit("/");
    reveal_strlit("#default/");
    if spec_contains_hash(target) {
    } else if spec_contains_hash(flake) {
        let i = choose|i: int| 0 <= i < flake.len() && flake[i] == '#';
        assert((flake + "/"@ + target)[i] == '#');
    } else {
        match derivation {
            Some(d) => {
                assert((flake + "#"@ + d + "/"@ + target)[flake.len() as int] == '#');
            },
            None => {
                assert((flake + "#default/"@ + target)[flake.len() as int] == '#');
            },
        }
    }
}

/// Normalization is idempotent: a canonical reference normalizes to
/// itself, for every target, base and collection hint.
pub proof fn lemma_normalize_idempotent(
    target: Seq<char>,
    flake: Seq<char>,
    derivation: Option<Seq<char>>,
)
    ensures
        spec_normalize(spec_normalize(target, flake, derivation), flake, derivation)
            == spec_normalize(target, flake, derivation),
{
    lemma_normalize_contains_hash(target, flake, derivation);
}

/// Declares `serde_json::Value` to the verifier as an opaque type: the
/// merge rules carry such values through without reading them.
#[verifier::external_type_specification]
#[verifier::external_body]
pub struct ExJsonValue(serde_json::Value);

/// Relies on the derived `serde_json::Value::clone`: the clone is equal
/// to the original value.
#[verifier::external_body]
pub(crate) fn clone_json_value(v: &serde_json::Value) -> (r: serde_json::Value)
    ensures
        r == *v,
{
    v.clone()
}

/// One top-level binding of a part's declared `inputs` mapping.  The
/// bound value is an opaque JSON tree; only the key takes part in the
/// merge rules.
#[derive(Debug)]
pub struct InputEntry {
    pub key: String,
    pub value: serde_json::Value,
}

pub struct InputEntryView {
    pub key: Seq<char>,
    pub value: serde_json::Value,
}

impl View for InputEntry {
    type V = InputEntryView;

    open spec fn view(&self) -> InputEntryView {
        InputEntryView { key: self.key@, value: self.value }
    }
}

impl DeepView for InputEntry {
    type V = InputEntryView;

    open spec fn deep_view(&self) -> InputEntryView {
        self@
    }
}

impl InputEntry {
    pub fn new(key: String, value: serde_json::Value) -> (r: InputEntry)
        ensures
            r@ == (InputEntryView { key: key@, value }),
    {
        InputEntry { key, value }
    }
}

impl Clone for InputEntry {
    fn clone(&self) -> (r: Self)
        ensures
            r@ == self@,
    {
        InputEntry { key: self.key.clone(), value: clone_json_value(&self.value) }
    }
}

/// A part's declared configuration.
#[derive(Debug)]
pub struct FlakePartMetadata {
    pub description: String,
    pub inputs: Vec<InputEntry>,
    pub dependencies: Vec<String>,
    pub conflicts: Vec<String>,
    pub extra_trusted_public_keys: Vec<String>,
    pub extra_substituters: Vec<String>,
}

pub struct MetadataView {
    pub description: Seq<char>,
    pub inputs: Seq<InputEntryView>,
    pub dependencies: Seq<Seq<char>>,
    pub conflicts: Seq<Seq<char>>,
    pub extra_trusted_public_keys: Seq<Seq<char>>,
    pub extra_substituters: Seq<Seq<char>>,
}

impl View for FlakePartMetadata {
    type V = MetadataView;

    open spec fn view(&self) -> MetadataView {
        MetadataView {
            description: self.description@,
            inputs: self.inputs.deep_view(),
            dependencies: self.dependencies.deep_view(),
            conflicts: self.conflicts.deep_view(),
            extra_trusted_public_keys: self.extra_trusted_public_keys.deep_view(),
            extra_substituters: self.extra_substituters.deep_view(),
        }
    }
}

impl DeepView for FlakePartMetadata {
    type V = MetadataView;

    open spec fn deep_view(&self) -> MetadataView {
        self@
    }
}

proof fn lemma_cloned_strings_deep_view(a: Seq<String>, b: Seq<String>)
    requires
        a.len() == b.len(),
        forall|i: int| 0 <= i < a.len() ==> cloned(a[i], #[trigger] b[i]),
    ensures
        a.map_values(|s: String| s.deep_view()) =~= b.map_values(|s: String| s.deep_view()),
{
    assert forall|i: int| 0 <= i < a.len() implies a[i]@ == b[i]@ by {
        assert(cloned(a[i], b[i]));
    }
}

proof fn lemma_cloned_entries_deep_view(a: Seq<InputEntry>, b: Seq<InputEntry>)
    requires
        a.len() == b.len(),
        forall|i: int| 0 <= i < a.len() ==> cloned(a[i], #[trigger] b[i]),
    ensures
        a.map_values(|e: InputEntry| e.deep_view()) =~= b.map_values(|e: InputEntry| e.deep_view()),
{
    assert forall|i: int| 0 <= i < a.len() implies a[i]@ == b[i]@ by {
        assert(cloned(a[i], b[i]));
    }
}

impl Clone for FlakePartMetadata {
    fn clone(&self) -> (r: Self)
        ensures
            r@ == self@,
    {
        let r = FlakePartMetadata {
            description: self.description.clone(),
            inputs: self.inputs.clone(),
            dependencies: self.dependencies.clone(),
            conflicts: self.conflicts.clone(),
            extra_trusted_public_keys: self.extra_trusted_public_keys.clone(),
            extra_substituters: self.extra_substituters.clone(),
        };
        proof {
            lemma_cloned_entries_deep_view(self.inputs@, r.inputs@);
            lemma_cloned_strings_deep_view(self.dependencies@, r.dependencies@);
            lemma_cloned_strings_deep_view(self.conflicts@, r.conflicts@);
            lemma_cloned_strings_deep_view(
                self.extra_trusted_public_keys@,
                r.extra_trusted_public_keys@,
            );
            lemma_cloned_strings_deep_view(self.extra_substituters@, r.extra_substituters@);
        }
        r
    }
}

/// A named template fragment together with the handle of its
/// materialized content and its declared configuration.
#[derive(Debug)]
pub struct FlakePart {
    pub name: String,
    pub nix_store_path: String,
    pub metadata: FlakePartMetadata,
}

pub struct PartView {
    pub name: Seq<char>,
    pub nix_store_path: Seq<char>,
    pub metadata: MetadataView,
}

impl View for FlakePart {
    type V = PartView;

    open spec fn view(&self) -> PartView {
        PartView {
            name: self.name@,
            nix_store_path: self.nix_store_path@,
            metadata: self.metadata@,
        }
    }
}

impl DeepView for FlakePart {
    type V = PartView;

    open spec fn deep_view(&self) -> PartView {
        self@
    }
}

impl Clone for FlakePart {
    fn clone(&self) -> (r: Self)
        ensures
            r@ == self@,
    {
        FlakePart {
            name: self.name.clone(),
            nix_store_path: self.nix_store_path.clone(),
            metadata: self.metadata.clone(),
        }
    }
}

impl FlakePart {
    pub fn new(name: String, nix_store_path: String, metadata: FlakePartMetadata) -> (r: Self)
        ensures
            r@ == (PartView { name: name@, nix_store_path: nix_store_path@, metadata: metadata@ }),
    {
        FlakePart { name, nix_store_path, metadata }
    }
}

/// A named origin of parts.
#[derive(Debug)]
pub struct FlakePartsStore {
    pub flake_uri: String,
    pub nix_store_path: String,
    pub parts: Vec<FlakePart>,
}

pub struct StoreView {
    pub flake_uri: Seq<char>,
    pub nix_store_path: Seq<char>,
    pub parts: Seq<PartView>,
}

impl View for FlakePartsStore {
    type V = StoreView;

    open spec fn view(&self) -> StoreView {
        StoreView {
            flake_uri: self.flake_uri@,
            nix_store_path: self.nix_store_path@,
            parts: self.parts.deep_view(),
        }
    }
}

impl DeepView for FlakePartsStore {
    type V = StoreView;

    open spec fn deep_view(&self) -> StoreView {
        self@
    }
}

impl FlakePartsStore {
    pub fn new(flake_uri: String, nix_store_path: String, parts: Vec<FlakePart>) -> (r: Self)
        ensures
            r@ == (StoreView {
                flake_uri: flake_uri@,
                nix_store_path: nix_store_path@,
                parts: parts.deep_view(),
            }),
    {
        FlakePartsStore { flake_uri, nix_store_path, parts }
    }
}

/// A store/part pairing, the unit the resolver operates on.  The owning
/// store's reference is carried alongside the part so that the same
/// part name from different origins stays distinguishable.
#[derive(Debug)]
pub struct FlakePartTuple {
    pub store_uri: String,
    pub part: FlakePart,
}

pub struct TupleView {
    pub store_uri: Seq<char>,
    pub part: PartView,
}

impl View for FlakePartTuple {
    type V = TupleView;

    open spec fn view(&self) -> TupleView {
        TupleView { store_uri: self.store_uri@, part: self.part@ }
    }
}

impl DeepView for FlakePartTuple {
    type V = TupleView;

    open spec fn deep_view(&self) -> TupleView {
        self@
    }
}

impl Clone for FlakePartTuple {
    fn clone(&self) -> (r: Self)
        ensures
            r@ == self@,
    {
        FlakePartTuple { store_uri: self.store_uri.clone(), part: self.part.clone() }
    }
}

/// Canonical identifier of a tuple: its part name normalized against
/// its owning store's reference.
pub open spec fn spec_uri_of(t: TupleView, derivation: Option<Seq<char>>) -> Seq<char> {
    spec_normalize(t.part.name, t.store_uri, derivation)
}

/// A tuple's declared dependencies, each normalized against the
/// declaring tuple's store.
pub open spec fn spec_deps_norm(t: TupleView) -> Seq<Seq<char>> {
    t.part.metadata.dependencies.map_values(|d: Seq<char>| spec_normalize(d, t.store_uri, None))
}

/// A tuple's declared conflicts, each normalized against the declaring
/// tuple's store.
pub open spec fn spec_conflicts_norm(t: TupleView) -> Seq<Seq<char>> {
    t.part.metadata.conflicts.map_values(|c: Seq<char>| spec_normalize(c, t.store_uri, None))
}

impl FlakePartTuple {
    pub fn new(store: &FlakePartsStore, part: FlakePart) -> (r: Self)
        ensures
            r@ == (TupleView { store_uri: store.flake_uri@, part: part@ }),
    {
        FlakePartTuple { store_uri: store.flake_uri.clone(), part }
    }

    pub fn to_flake_uri(&self, derivation: Option<&str>) -> (r: String)
        ensures
            r@ == spec_uri_of(
                self@,
                match derivation {
                    Some(d) => Some(d@),
                    None => None,
                },
            ),
    {
        normalize_flake_string(self.part.name.as_str(), self.store_uri.as_str(), derivation)
    }
}

/// Pool index `j` carries the canonical identifier `u`.
pub open spec fn spec_matches_at(pool: Seq<TupleView>, u: Seq<char>, j: int) -> bool {
    0 <= j < pool.len() && spec_uri_of(pool[j], None) == u
}

/// Some tuple of the pool carries the canonical identifier `u`.
pub open spec fn spec_has_match(pool: Seq<TupleView>, u: Seq<char>) -> bool {
    exists|j: int| spec_matches_at(pool, u, j)
}

/// `j` is the lowest pool index carrying the canonical identifier `u`,
/// the one the resolver enqueues for expansion.
pub open spec fn spec_first_match_at(pool: Seq<TupleView>, u: Seq<char>, j: int) -> bool {
    spec_matches_at(pool, u, j) && forall|k: int| 0 <= k < j ==> !spec_matches_at(pool, u, k)
}

/// The set of pool indices named by a list of seed indices.
pub open spec fn spec_seed_set(s: Seq<usize>) -> Set<int> {
    Set::new(|j: int| exists|k: int| 0 <= k < s.len() && s[k] as int == j)
}

/// Pool index `j` gets expanded by the resolver within `fuel` rounds:
/// it is a seed, or it is the first carrier of some dependency
/// identifier declared by a tuple expanded one round earlier.
pub open spec fn spec_expanded(pool: Seq<TupleView>, seeds: Set<int>, j: int, fuel: nat) -> bool
    decreases fuel,
{
    0 <= j < pool.len() && (seeds.contains(j) || (fuel > 0 && exists|j2: int, v: Seq<char>|
        #![trigger spec_deps_norm(pool[j2]).contains(v), spec_first_match_at(pool, v, j)]
        spec_expanded(pool, seeds, j2, (fuel - 1) as nat) && spec_deps_norm(pool[j2]).contains(v)
            && spec_first_match_at(pool, v, j)))
}

/// The identifier `u` is required within `fuel` rounds: some tuple
/// expanded within `fuel` rounds declares it as a normalized
/// dependency.
pub open spec fn spec_required(pool: Seq<TupleView>, seeds: Set<int>, u: Seq<char>, fuel: nat) -> bool {
    exists|j: int| spec_expanded(pool, seeds, j, fuel) && spec_deps_norm(pool[j]).contains(u)
}

/// The identifier `u` is transitively required by the seed set: the
/// dependency closure of the seeds contains it.
pub open spec fn spec_in_closure(pool: Seq<TupleView>, seeds: Set<int>, u: Seq<char>) -> bool {
    exists|fuel: nat| spec_required(pool, seeds, u, fuel)
}

/// Pool index `j` gets expanded by the resolver in some round.
pub open spec fn spec_ever_expanded(pool: Seq<TupleView>, seeds: Set<int>, j: int) -> bool {
    exists|fuel: nat| spec_expanded(pool, seeds, j, fuel)
}

/// All normalized dependency identifiers declared anywhere in the pool.
pub open spec fn spec_all_deps(pool: Seq<TupleView>) -> Seq<Seq<char>> {
    pool.flat_map(|t: TupleView| spec_deps_norm(t))
}

/// Whether `v` holds a string whose characters equal `s`'s.
pub(crate) fn vec_contains_string(v: &Vec<String>, s: &String) -> (r: bool)
    ensures
        r == v.deep_view().contains(s@),
{
    let mut i: usize = 0;
    while i < v.len()
        invariant
            i <= v.len(),
            forall|j: int| 0 <= j < i ==> v.deep_view()[j] != s@,
        decreases v.len() - i,
    {
        if s.eq(&v[i]) {
            proof {
                assert(v.deep_view()[i as int] == s@);
            }
            return true;
        }
        i = i + 1;
    }
    proof {
        assert forall|j: int| 0 <= j < v.deep_view().len() implies v.deep_view()[j] != s@ by {}
    }
    false
}

/// Lowest pool index whose canonical identifier equals `uri`, if any.
fn position_of_uri(pool: &Vec<FlakePartTuple>, uri: &String) -> (r: Option<usize>)
    ensures
        match r {
            Some(j) => spec_first_match_at(pool.deep_view(), uri@, j as int),
            None => !spec_has_match(pool.deep_view(), uri@),
        },
{
    let mut i: usize = 0;
    while i < pool.len()
        invariant
            i <= pool.len(),
            forall|k: int| 0 <= k < i ==> !spec_matches_at(pool.deep_view(), uri@, k),
        decreases pool.len() - i,
    {
        let t = &pool[i];
        let u = t.to_flake_uri(None);
        if u.eq(uri) {
            proof {
                assert(spec_matches_at(pool.deep_view(), uri@, i as int));
            }
            return Some(i);
        }
        i = i + 1;
    }
    proof {
        assert forall|j: int| !spec_matches_at(pool.deep_view(), uri@, j) by {
            if 0 <= j < pool.deep_view().len() {
                assert(!spec_matches_at(pool.deep_view(), uri@, j));
            }
        }
    }
    None
}

proof fn lemma_filter_push<A>(s: Seq<A>, x: A, p: spec_fn(A) -> bool)
    ensures
        s.push(x).filter(p) == (if p(x) {
            s.filter(p).push(x)
        } else {
            s.filter(p)
        }),
{
    reveal(Seq::filter);
    assert(s.push(x).drop_last() =~= s);
    assert(s.push(x).last() == x);
}

proof fn lemma_filter_no_dup<A>(s: Seq<A>, p: spec_fn(A) -> bool)
    requires
        s.no_duplicates(),
    ensures
        s.filter(p).no_duplicates(),
    decreases s.len(),
{
    reveal(Seq::filter);
    if s.len() == 0 {
    } else {
        let rest = s.drop_last();
        lemma_filter_no_dup(rest, p);
        if p(s.last()) {
            assert(!rest.contains(s.last()));
            if rest.filter(p).contains(s.last()) {
                rest.lemma_filter_contains_rev(p, s.last());
            }
            assert(!rest.filter(p).contains(s.last()));
            let out = rest.filter(p).push(s.last());
            assert forall|i: int, j: int| 0 <= i < j < out.len() implies out[i] != out[j] by {
                if j == out.len() - 1 {
                    assert(rest.filter(p).contains(rest.filter(p)[i]));
                }
            }
        }
    }
}

proof fn lemma_nodup_members_bound<A>(a: Seq<A>, b: Seq<A>)
    requires
        a.no_duplicates(),
        forall|i: int| 0 <= i < a.len() ==> b.contains(#[trigger] a[i]),
    ensures
        a.len() <= b.len(),
{
    broadcast use vstd::seq_lib::seq_to_set_is_finite;

    a.unique_seq_to_set();
    b.lemma_cardinality_of_set();
    assert(a.to_set().subset_of(b.to_set())) by {
        assert forall|x: A| a.to_set().contains(x) implies b.to_set().contains(x) by {
            assert(a.contains(x));
            let i = choose|i: int| 0 <= i < a.len() && a[i] == x;
            assert(b.contains(a[i]));
        }
    }
    vstd::set_lib::lemma_len_subset(a.to_set(), b.to_set());
}

proof fn lemma_flat_map_take_subset(
    pool: Seq<TupleView>,
    f: spec_fn(TupleView) -> Seq<Seq<char>>,
    i: int,
    u: Seq<char>,
)
    requires
        0 <= i <= pool.len(),
        pool.take(i).flat_map(f).contains(u),
    ensures
        pool.flat_map(f).contains(u),
    decreases pool.len() - i,
{
    if i == pool.len() {
        assert(pool.take(i) =~= pool);
    } else {
        pool.lemma_flat_map_take_append(f, i);
        let k = choose|k: int|
            0 <= k < pool.take(i).flat_map(f).len() && pool.take(i).flat_map(f)[k] == u;
        assert(pool.take(i + 1).flat_map(f)[k] == u);
        lemma_flat_map_take_subset(pool, f, i + 1, u);
    }
}

/// A dependency of any tuple stands in the pool-wide dependency list.
proof fn lemma_dep_in_all_deps(pool: Seq<TupleView>, j: int, u: Seq<char>)
    requires
        0 <= j < pool.len(),
        spec_deps_norm(pool[j]).contains(u),
    ensures
        spec_all_deps(pool).contains(u),
{
    let f = |t: TupleView| spec_deps_norm(t);
    let i = choose|i: int| 0 <= i < spec_deps_norm(pool[j]).len() && spec_deps_norm(pool[j])[i] == u;
    pool.lemma_flat_map_take_append(f, j);
    assert(pool.take(j + 1).flat_map(f).contains(u)) by {
        assert(pool.take(j + 1).flat_map(f)[pool.take(j).flat_map(f).len() + i] == u);
    }
    lemma_flat_map_take_subset(pool, f, j + 1, u);
}

/// The dependencies of every tuple expanded from the seeds stand in a
/// list `rs` that is closed under seed expansion and first-match
/// expansion.
proof fn lemma_expanded_deps_in(
    pool: Seq<TupleView>,
    seeds: Set<int>,
    rs: Seq<Seq<char>>,
    j: int,
    fuel: nat,
)
    requires
        forall|j0: int, d: Seq<char>|
            #![trigger seeds.contains(j0), spec_deps_norm(pool[j0]).contains(d)]
            seeds.contains(j0) && 0 <= j0 < pool.len() && spec_deps_norm(pool[j0]).contains(d)
                ==> rs.contains(d),
        forall|v: Seq<char>, j0: int, d: Seq<char>|
            #![trigger spec_first_match_at(pool, v, j0), spec_deps_norm(pool[j0]).contains(d)]
            rs.contains(v) && spec_first_match_at(pool, v, j0)
                && spec_deps_norm(pool[j0]).contains(d) ==> rs.contains(d),
        spec_expanded(pool, seeds, j, fuel),
    ensures
        forall|d: Seq<char>| #[trigger] spec_deps_norm(pool[j]).contains(d) ==> rs.contains(d),
    decreases fuel,
{
    if seeds.contains(j) {
    } else {
        let (j2, v) = choose|j2: int, v: Seq<char>|
            #![trigger spec_deps_norm(pool[j2]).contains(v), spec_first_match_at(pool, v, j)]
            spec_expanded(pool, seeds, j2, (fuel - 1) as nat) && spec_deps_norm(
                pool[j2],
            ).contains(v) && spec_first_match_at(pool, v, j);
        lemma_expanded_deps_in(pool, seeds, rs, j2, (fuel - 1) as nat);
        assert(rs.contains(v));
    }
}


impl FlakePartTuple {
    /// Compute the transitive dependency closure of the seed tuples.
    ///
    /// Starting from the tuples named by `start_indices`, every
    /// declared dependency is normalized against its declaring store;
    /// each newly seen identifier is recorded, and when some pool tuple
    /// carries it, that tuple (the lowest-indexed carrier) is expanded
    /// in turn.  The first returned list holds every transitively
    /// required identifier, each once, in discovery order; the second
    /// holds the subsequence of those that no pool tuple carries.
    #[verifier::loop_isolation(false)]
    pub fn resolve_dependencies_of(
        parts_tuples_pool: &Vec<FlakePartTuple>,
        start_indices: Vec<usize>,
    ) -> (r: (Vec<String>, Vec<String>))
        requires
            forall|k: int| 0 <= k < start_indices@.len()
                ==> (#[trigger] start_indices@[k]) < parts_tuples_pool@.len(),
        ensures
            ({
                let pool = parts_tuples_pool.deep_view();
                let seeds = spec_seed_set(start_indices@);
                &&& forall|u: Seq<char>|
                    #![trigger r.0.deep_view().contains(u)]
                    #![trigger spec_in_closure(pool, seeds, u)]
                    r.0.deep_view().contains(u) <==> spec_in_closure(pool, seeds, u)
                &&& r.0.deep_view().no_duplicates()
                &&& r.1.deep_view() == r.0.deep_view().filter(
                    |u: Seq<char>| !spec_has_match(pool, u),
                )
                &&& r.1.deep_view().no_duplicates()
                &&& forall|u: Seq<char>| #[trigger] r.1.deep_view().contains(u)
                    <==> spec_in_closure(pool, seeds, u) && !spec_has_match(pool, u)
            }),
    {
        let ghost pool = parts_tuples_pool.deep_view();
        let ghost seeds = spec_seed_set(start_indices@);
        let ghost seeds_len = start_indices@.len();
        let ghost no_match = |u: Seq<char>| !spec_has_match(pool, u);

        let mut resolved: Vec<String> = Vec::new();
        let mut unresolved: Vec<String> = Vec::new();
        let mut queue: Vec<usize> = start_indices;
        let mut head: usize = 0;
        let ghost orig_seeds = queue@;

        proof {
            assert(resolved.deep_view().filter(no_match) =~= unresolved.deep_view());
            assert forall|k: int| #![trigger queue@[k]] 0 <= k < queue@.len() implies
                spec_ever_expanded(pool, seeds, queue@[k] as int) by {
                assert(0 <= k < orig_seeds.len() && orig_seeds[k] as int == queue@[k] as int);
                assert(seeds.contains(queue@[k] as int));
                assert(spec_expanded(pool, seeds, queue@[k] as int, 0));
            }
        }

        while head < queue.len()
            invariant
                head <= queue.len(),
                queue@.len() >= seeds_len,
                queue@.subrange(0, seeds_len as int) =~= orig_seeds,
                forall|k: int| 0 <= k < queue@.len()
                    ==> (#[trigger] queue@[k]) < parts_tuples_pool@.len(),
                forall|k: int| #![trigger queue@[k]] 0 <= k < queue@.len()
                    ==> spec_ever_expanded(pool, seeds, queue@[k] as int),
                forall|i: int| 0 <= i < resolved.deep_view().len()
                    ==> spec_in_closure(pool, seeds, #[trigger] resolved.deep_view()[i]),
                forall|k: int, d: Seq<char>|
                    #![trigger queue@[k], spec_deps_norm(pool[queue@[k] as int]).contains(d)]
                    0 <= k < head && spec_deps_norm(pool[queue@[k] as int]).contains(d)
                        ==> resolved.deep_view().contains(d),
                forall|i: int|
                    0 <= i < resolved.deep_view().len() && spec_has_match(
                        pool,
                        #[trigger] resolved.deep_view()[i],
                    ) ==> exists|k: int|
                        0 <= k < queue@.len() && spec_first_match_at(
                            pool,
                            resolved.deep_view()[i],
                            queue@[k] as int,
                        ),
                resolved.deep_view().no_duplicates(),
                forall|i: int| 0 <= i < resolved.deep_view().len()
                    ==> spec_all_deps(pool).contains(#[trigger] resolved.deep_view()[i]),
                resolved@.len() <= spec_all_deps(pool).len(),
                queue@.len() <= seeds_len + resolved@.len(),
                unresolved.deep_view() == resolved.deep_view().filter(no_match),
            decreases spec_all_deps(pool).len() + seeds_len - head,
        {
            let index = queue[head];
            proof {
                assert(spec_ever_expanded(pool, seeds, index as int));
            }
            let ghost fidx = choose|fuel: nat| spec_expanded(pool, seeds, index as int, fuel);
            proof {
                assert(spec_expanded(pool, seeds, index as int, fidx));
            }
            let part_tuple = &parts_tuples_pool[index];
            let ghost tv = pool[index as int];
            let deps_len = part_tuple.part.metadata.dependencies.len();
            let mut di: usize = 0;
            while di < deps_len
                invariant
                    di <= deps_len,
                    head < queue@.len(),
                    queue@[head as int] == index,
                    queue@.len() >= seeds_len,
                    queue@.subrange(0, seeds_len as int) =~= orig_seeds,
                    forall|k: int| 0 <= k < queue@.len()
                        ==> (#[trigger] queue@[k]) < parts_tuples_pool@.len(),
                    forall|k: int| #![trigger queue@[k]] 0 <= k < queue@.len()
                        ==> spec_ever_expanded(pool, seeds, queue@[k] as int),
                    forall|i: int| 0 <= i < resolved.deep_view().len()
                        ==> spec_in_closure(pool, seeds, #[trigger] resolved.deep_view()[i]),
                    forall|k: int, d: Seq<char>|
                        #![trigger queue@[k], spec_deps_norm(pool[queue@[k] as int]).contains(d)]
                        0 <= k < head && spec_deps_norm(pool[queue@[k] as int]).contains(d)
                            ==> resolved.deep_view().contains(d),
                    forall|i: int|
                        0 <= i < resolved.deep_view().len() && spec_has_match(
                            pool,
                            #[trigger] resolved.deep_view()[i],
                        ) ==> exists|k: int|
                            0 <= k < queue@.len() && spec_first_match_at(
                                pool,
                                resolved.deep_view()[i],
                                queue@[k] as int,
                            ),
                    resolved.deep_view().no_duplicates(),
                    forall|i: int| 0 <= i < resolved.deep_view().len()
                        ==> spec_all_deps(pool).contains(#[trigger] resolved.deep_view()[i]),
                    resolved@.len() <= spec_all_deps(pool).len(),
                    queue@.len() <= seeds_len + resolved@.len(),
                    unresolved.deep_view() == resolved.deep_view().filter(no_match),
                    forall|k: int| 0 <= k < di
                        ==> resolved.deep_view().contains(#[trigger] spec_deps_norm(tv)[k]),
                decreases deps_len - di,
            {
                let dep = &part_tuple.part.metadata.dependencies[di];
                let normalized_dep = normalize_flake_string(
                    dep.as_str(),
                    part_tuple.store_uri.as_str(),
                    None,
                );
                proof {
                    assert(normalized_dep@ == spec_deps_norm(tv)[di as int]);
                    assert(spec_deps_norm(tv).contains(spec_deps_norm(tv)[di as int]));
                }
                if !vec_contains_string(&resolved, &normalized_dep) {
                    proof {
                        assert(spec_deps_norm(pool[index as int]).contains(normalized_dep@));
                        assert(spec_required(pool, seeds, normalized_dep@, fidx));
                        assert(spec_in_closure(pool, seeds, normalized_dep@));
                        lemma_dep_in_all_deps(pool, index as int, normalized_dep@);
                        lemma_filter_push(resolved.deep_view(), normalized_dep@, no_match);
                    }
                    let ghost old_resolved = resolved.deep_view();
                    resolved.push(normalized_dep.clone());
                    proof {
                        assert(resolved.deep_view() =~= old_resolved.push(normalized_dep@));
                        assert forall|i: int, j: int|
                            0 <= i < j < resolved.deep_view().len()
                                implies resolved.deep_view()[i] != resolved.deep_view()[j] by {
                            if j == resolved.deep_view().len() - 1 {
                                assert(old_resolved.contains(old_resolved[i]));
                            }
                        }
                        lemma_nodup_members_bound(resolved.deep_view(), spec_all_deps(pool));
                    }
                    match position_of_uri(parts_tuples_pool, &normalized_dep) {
                        Some(dep_index) => {
                            proof {
                                assert(spec_first_match_at(pool, normalized_dep@, dep_index as int));
                                assert(spec_expanded(
                                    pool,
                                    seeds,
                                    dep_index as int,
                                    (fidx + 1) as nat,
                                ));
                                assert(spec_ever_expanded(pool, seeds, dep_index as int));
                            }
                            let ghost old_queue = queue@;
                            queue.push(dep_index);
                            proof {
                                assert(queue@ =~= old_queue.push(dep_index));
                                assert(queue@.subrange(0, seeds_len as int) =~= orig_seeds);
                                assert forall|i: int|
                                    0 <= i < resolved.deep_view().len() && spec_has_match(
                                        pool,
                                        #[trigger] resolved.deep_view()[i],
                                    ) implies exists|k: int|
                                        0 <= k < queue@.len() && spec_first_match_at(
                                            pool,
                                            resolved.deep_view()[i],
                                            queue@[k] as int,
                                        ) by {
                                    if i < old_resolved.len() {
                                        assert(resolved.deep_view()[i] == old_resolved[i]);
                                        let k = choose|k: int|
                                            0 <= k < old_queue.len() && spec_first_match_at(
                                                pool,
                                                old_resolved[i],
                                                old_queue[k] as int,
                                            );
                                        assert(queue@[k] == old_queue[k]);
                                        assert(spec_first_match_at(
                                            pool,
                                            resolved.deep_view()[i],
                                            queue@[k] as int,
                                        ));
                                    } else {
                                        assert(resolved.deep_view()[i] == normalized_dep@);
                                        assert(queue@[queue@.len() - 1] == dep_index);
                                        assert(spec_first_match_at(
                                            pool,
                                            resolved.deep_view()[i],
                                            queue@[queue@.len() - 1] as int,
                                        ));
                                    }
                                }
                            }
                        },
                        None => {
                            let ghost old_unresolved = unresolved.deep_view();
                            unresolved.push(normalized_dep);
                            proof {
                                assert(unresolved.deep_view() =~= old_unresolved.push(
                                    old_resolved.push(normalized_dep@).last(),
                                ));
                                assert forall|i: int|
                                    0 <= i < resolved.deep_view().len() && spec_has_match(
                                        pool,
                                        #[trigger] resolved.deep_view()[i],
                                    ) implies exists|k: int|
                                        0 <= k < queue@.len() && spec_first_match_at(
                                            pool,
                                            resolved.deep_view()[i],
                                            queue@[k] as int,
                                        ) by {
                                    assert(i < old_resolved.len());
                                    assert(resolved.deep_view()[i] == old_resolved[i]);
                                }
                            }
                        },
                    }
                    proof {
                        assert(resolved.deep_view()[resolved.deep_view().len() - 1]
                            == normalized_dep@);
                        assert(resolved.deep_view().contains(normalized_dep@));
                        assert forall|d: Seq<char>| old_resolved.contains(d)
                            implies resolved.deep_view().contains(d) by {
                            let i = choose|i: int| 0 <= i < old_resolved.len()
                                && old_resolved[i] == d;
                            assert(resolved.deep_view()[i] == d);
                        }
                    }
                }
                di = di + 1;
            }
            proof {
                assert forall|d: Seq<char>| spec_deps_norm(tv).contains(d)
                    implies resolved.deep_view().contains(d) by {
                    let k = choose|k: int|
                        0 <= k < spec_deps_norm(tv).len() && spec_deps_norm(tv)[k] == d;
                    assert(resolved.deep_view().contains(spec_deps_norm(tv)[k]));
                }
            }
            head = head + 1;
        }
        proof {
            let rs = resolved.deep_view();
            assert forall|j: int, d: Seq<char>|
                #![trigger seeds.contains(j), spec_deps_norm(pool[j]).contains(d)]
                seeds.contains(j) && 0 <= j < pool.len() && spec_deps_norm(pool[j]).contains(d)
                    implies rs.contains(d) by {
                let k = choose|k: int| 0 <= k < orig_seeds.len() && orig_seeds[k] as int == j;
                assert(queue@.subrange(0, seeds_len as int)[k] == orig_seeds[k]);
                assert(queue@[k] as int == j);
                assert(spec_deps_norm(pool[queue@[k] as int]).contains(d));
            }
            assert forall|v: Seq<char>, j: int, d: Seq<char>|
                #![trigger spec_first_match_at(pool, v, j), spec_deps_norm(pool[j]).contains(d)]
                rs.contains(v) && spec_first_match_at(pool, v, j)
                    && spec_deps_norm(pool[j]).contains(d) implies rs.contains(d) by {
                let i = choose|i: int| 0 <= i < rs.len() && rs[i] == v;
                assert(spec_has_match(pool, rs[i]));
                let k = choose|k: int|
                    0 <= k < queue@.len() && spec_first_match_at(pool, rs[i], queue@[k] as int);
                assert(queue@[k] as int == j);
                assert(spec_deps_norm(pool[queue@[k] as int]).contains(d));
            }
            assert forall|u: Seq<char>| spec_in_closure(pool, seeds, u) implies rs.contains(u) by {
                let fuel = choose|fuel: nat| spec_required(pool, seeds, u, fuel);
                let j = choose|j: int|
                    spec_expanded(pool, seeds, j, fuel) && spec_deps_norm(pool[j]).contains(u);
                lemma_expanded_deps_in(pool, seeds, rs, j, fuel);
            }
            lemma_filter_no_dup(rs, no_match);
            assert forall|u: Seq<char>| #[trigger] unresolved.deep_view().contains(u)
                implies spec_in_closure(pool, seeds, u) && !spec_has_match(pool, u) by {
                let i = choose|i: int|
                    0 <= i < unresolved.deep_view().len() && unresolved.deep_view()[i] == u;
                broadcast use vstd::seq_lib::group_filter_ensures;

                assert(rs.filter(no_match).contains(u));
                rs.lemma_filter_contains_rev(no_match, u);
                assert(no_match(rs.filter(no_match)[i]));
            }
            assert forall|u: Seq<char>|
                spec_in_closure(pool, seeds, u) && !spec_has_match(pool, u)
                    implies #[trigger] unresolved.deep_view().contains(u) by {
                assert(rs.contains(u));
                let i = choose|i: int| 0 <= i < rs.len() && rs[i] == u;
                rs.lemma_filter_contains(no_match, i);
            }
        }
        (resolved, unresolved)
    }
}

/// The request string `req` names the tuple `t`: it equals the tuple's
/// canonical identifier or its bare part name.
pub open spec fn spec_matches_req(t: TupleView, req: Seq<char>) -> bool {
    req == spec_uri_of(t, None) || req == t.part.name
}

/// Some request in `reqs` names the tuple `t`.
pub open spec fn spec_matches_any(t: TupleView, reqs: Seq<Seq<char>>) -> bool {
    exists|i: int| 0 <= i < reqs.len() && spec_matches_req(t, reqs[i])
}

/// Some tuple of `pool` is named by the request string `req`.
pub open spec fn spec_any_tuple_matches(pool: Seq<TupleView>, req: Seq<char>) -> bool {
    exists|j: int| 0 <= j < pool.len() && spec_matches_req(pool[j], req)
}

/// The requests among `reqs` that name no tuple of `pool`, in request
/// order.
pub open spec fn spec_missing(pool: Seq<TupleView>, reqs: Seq<Seq<char>>) -> Seq<Seq<char>>
    decreases reqs.len(),
{
    if reqs.len() == 0 {
        Seq::empty()
    } else {
        let rest = spec_missing(pool, reqs.drop_last());
        if spec_any_tuple_matches(pool, reqs.last()) {
            rest
        } else {
            rest.push(reqs.last())
        }
    }
}

/// Every conflict identifier declared by any tuple of `pool`, each
/// normalized against its declaring store, in declaration order.
pub open spec fn spec_conflict_uris(pool: Seq<TupleView>) -> Seq<Seq<char>>
    decreases pool.len(),
{
    if pool.len() == 0 {
        Seq::empty()
    } else {
        spec_conflict_uris(pool.drop_last()) + spec_conflicts_norm(pool.last())
    }
}

/// The tuples among the first `n` of `pool` whose canonical identifier
/// stands in `uris`, in pool order.
pub open spec fn spec_flagged_take(pool: Seq<TupleView>, uris: Seq<Seq<char>>, n: int) -> Seq<
    TupleView,
>
    decreases n,
{
    if n <= 0 {
        Seq::empty()
    } else {
        let rest = spec_flagged_take(pool, uris, n - 1);
        if uris.contains(spec_uri_of(pool[n - 1], None)) {
            rest.push(pool[n - 1])
        } else {
            rest
        }
    }
}

/// The tuples of `pool` forbidden by some conflict declaration of a
/// tuple of `pool`: the conflict check's flagged set.
pub open spec fn spec_flagged(pool: Seq<TupleView>) -> Seq<TupleView> {
    spec_flagged_take(pool, spec_conflict_uris(pool), pool.len() as int)
}

/// The canonical identifiers of the tuples in `ts`, in order.
pub open spec fn spec_uris_of(ts: Seq<TupleView>) -> Seq<Seq<char>>
    decreases ts.len(),
{
    if ts.len() == 0 {
        Seq::empty()
    } else {
        spec_uris_of(ts.drop_last()).push(spec_uri_of(ts.last(), None))
    }
}

/// Whether the request string `req` names the tuple `t`.
pub(crate) fn tuple_matches_req(t: &FlakePartTuple, req: &String) -> (r: bool)
    ensures
        r == spec_matches_req(t@, req@),
{
    let uri = t.to_flake_uri(None);
    if req.eq(&uri) {
        true
    } else {
        req.eq(&t.part.name)
    }
}

/// Whether some request in `reqs` names the tuple `t`.
pub(crate) fn matches_any_request(t: &FlakePartTuple, reqs: &Vec<String>) -> (r: bool)
    ensures
        r == spec_matches_any(t@, reqs.deep_view()),
{
    let mut i: usize = 0;
    while i < reqs.len()
        invariant
            i <= reqs.len(),
            forall|k: int| 0 <= k < i ==> !spec_matches_req(t@, reqs.deep_view()[k]),
        decreases reqs.len() - i,
    {
        if tuple_matches_req(t, &reqs[i]) {
            proof {
                assert(spec_matches_req(t@, reqs.deep_view()[i as int]));
            }
            return true;
        }
        i = i + 1;
    }
    false
}

/// Whether some tuple of `pool` is named by the request string `req`.
fn any_tuple_matches(pool: &Vec<FlakePartTuple>, req: &String) -> (r: bool)
    ensures
        r == spec_any_tuple_matches(pool.deep_view(), req@),
{
    let mut j: usize = 0;
    while j < pool.len()
        invariant
            j <= pool.len(),
            forall|k: int| 0 <= k < j ==> !spec_matches_req(pool.deep_view()[k], req@),
        decreases pool.len() - j,
    {
        if tuple_matches_req(&pool[j], req) {
            proof {
                assert(spec_matches_req(pool.deep_view()[j as int], req@));
            }
            return true;
        }
        j = j + 1;
    }
    false
}

impl FlakePartTuple {
    /// Collect the explicitly required part references that no tuple of
    /// `parts_tuples` matches, by canonical identifier or bare name.
    #[verifier::loop_isolation(false)]
    pub fn find_missing_parts_in(
        parts_tuples: &Vec<FlakePartTuple>,
        required_parts: &Vec<String>,
    ) -> (r: Vec<String>)
        ensures
            r.deep_view() == spec_missing(parts_tuples.deep_view(), required_parts.deep_view()),
    {
        let ghost poolv = parts_tuples.deep_view();
        let ghost reqsv = required_parts.deep_view();
        let mut missing: Vec<String> = Vec::new();
        let mut i: usize = 0;
        proof {
            assert(missing.deep_view() =~= spec_missing(poolv, reqsv.take(0)));
        }
        while i < required_parts.len()
            invariant
                i <= required_parts.len(),
                missing.deep_view() == spec_missing(poolv, reqsv.take(i as int)),
            decreases required_parts.len() - i,
        {
            let req = &required_parts[i];
            proof {
                assert(reqsv.take(i + 1).drop_last() =~= reqsv.take(i as int));
                assert(reqsv.take(i + 1).last() == req@);
            }
            let ghost old_missing = missing.deep_view();
            if !any_tuple_matches(parts_tuples, req) {
                missing.push(req.clone());
                proof {
                    assert(missing.deep_view() =~= old_missing.push(req@));
                }
            }
            i = i + 1;
        }
        proof {
            assert(reqsv.take(required_parts.len() as int) =~= reqsv);
        }
        missing
    }

    /// Collect the tuples of `parts_tuples` that some tuple of the same
    /// list declares a conflict with, by canonical identifier.
    #[verifier::loop_isolation(false)]
    pub fn find_conflicting_parts_in(parts_tuples: &Vec<FlakePartTuple>) -> (r: Vec<
        FlakePartTuple,
    >)
        ensures
            r.deep_view() == spec_flagged(parts_tuples.deep_view()),
    {
        let ghost poolv = parts_tuples.deep_view();
        let mut conflict_uris: Vec<String> = Vec::new();
        let mut i: usize = 0;
        proof {
            assert(conflict_uris.deep_view() =~= spec_conflict_uris(poolv.take(0)));
        }
        while i < parts_tuples.len()
            invariant
                i <= parts_tuples.len(),
                conflict_uris.deep_view() == spec_conflict_uris(poolv.take(i as int)),
            decreases parts_tuples.len() - i,
        {
            let part_tuple = &parts_tuples[i];
            let ghost tv = poolv[i as int];
            let conflicts_len = part_tuple.part.metadata.conflicts.len();
            let mut ci: usize = 0;
            proof {
                assert(poolv.take(i + 1).drop_last() =~= poolv.take(i as int));
                assert(poolv.take(i + 1).last() == tv);
                assert(spec_conflicts_norm(tv).take(0) =~= Seq::<Seq<char>>::empty());
                assert(conflict_uris.deep_view() =~= spec_conflict_uris(poolv.take(i as int))
                    + spec_conflicts_norm(tv).take(0));
            }
            while ci < conflicts_len
                invariant
                    ci <= conflicts_len,
                    conflicts_len == tv.part.metadata.conflicts.len(),
                    conflict_uris.deep_view() == spec_conflict_uris(poolv.take(i as int))
                        + spec_conflicts_norm(tv).take(ci as int),
                decreases conflicts_len - ci,
            {
                let conflict = &part_tuple.part.metadata.conflicts[ci];
                let normalized = normalize_flake_string(
                    conflict.as_str(),
                    part_tuple.store_uri.as_str(),
                    None,
                );
                let ghost old_uris = conflict_uris.deep_view();
                conflict_uris.push(normalized);
                proof {
                    assert(spec_conflicts_norm(tv).take(ci + 1) =~= spec_conflicts_norm(tv).take(
                        ci as int,
                    ).push(spec_conflicts_norm(tv)[ci as int]));
                    assert(conflict_uris.deep_view() =~= old_uris.push(
                        spec_conflicts_norm(tv)[ci as int],
                    ));
                    assert(conflict_uris.deep_view() =~= spec_conflict_uris(poolv.take(i as int))
                        + spec_conflicts_norm(tv).take(ci + 1));
                }
                ci = ci + 1;
            }
            proof {
                assert(spec_conflicts_norm(tv).take(conflicts_len as int) =~= spec_conflicts_norm(
                    tv,
                ));
                assert(conflict_uris.deep_view() =~= spec_conflict_uris(poolv.take(i + 1)));
            }
            i = i + 1;
        }
        proof {
            assert(poolv.take(parts_tuples.len() as int) =~= poolv);
        }
        let ghost urisv = conflict_uris.deep_view();
        let mut flagged: Vec<FlakePartTuple> = Vec::new();
        let mut j: usize = 0;
        proof {
            assert(flagged.deep_view() =~= spec_flagged_take(poolv, urisv, 0));
        }
        while j < parts_tuples.len()
            invariant
                j <= parts_tuples.len(),
                flagged.deep_view() == spec_flagged_take(poolv, urisv, j as int),
            decreases parts_tuples.len() - j,
        {
            let part_tuple = &parts_tuples[j];
            let uri = part_tuple.to_flake_uri(None);
            let ghost old_flagged = flagged.deep_view();
            if vec_contains_string(&conflict_uris, &uri) {
                flagged.push(part_tuple.clone());
                proof {
                    assert(flagged.deep_view() =~= old_flagged.push(poolv[j as int]));
                }
            }
            j = j + 1;
        }
        flagged
    }
}

/// Copy a list of strings, keeping every character sequence.
pub(crate) fn clone_string_vec(v: &Vec<String>) -> (r: Vec<String>)
    ensures
        r.deep_view() == v.deep_view(),
{
    let r = v.clone();
    proof {
        assert forall|i: int| 0 <= i < r@.len() implies r.deep_view()[i] == v.deep_view()[i] by {
            assert(cloned(v@[i], r@[i]));
        }
        assert(r.deep_view() =~= v.deep_view());
    }
    r
}

} // verus!
