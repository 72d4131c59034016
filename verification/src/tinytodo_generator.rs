//! Data model of the todo-application workload generator: entity ids in
//! textual form, entities with parent lists, fresh-name drawing from a
//! fuzzer byte source, generation limits, and the team-tree shape from
//! which group hierarchies are flattened.

use vstd::prelude::*;
use vstd::string::StrSliceExecFns;
use vstd::string::StringExecFns;

verus! {

/// A sequence holds a contiguous occurrence of another sequence.
pub open spec fn contains_subseq(hay: Seq<char>, needle: Seq<char>) -> bool {
    exists|i: int|
        0 <= i && i + needle.len() <= hay.len() && #[trigger] hay.subrange(i, i + needle.len())
            == needle
}

/// Whether `pat` occurs at position `i` of `hay`.
fn match_at(hay: &str, pat: &str, i: usize, hn: usize, pn: usize) -> (b: bool)
    requires
        hn == hay@.len(),
        pn == pat@.len(),
        i + pn <= hn,
    ensures
        b == (hay@.subrange(i as int, i as int + pn as int) == pat@),
{
    let mut j: usize = 0;
    while j < pn
        invariant
            hn == hay@.len(),
            pn == pat@.len(),
            i + pn <= hn,
            0 <= j <= pn,
            forall|t: int| 0 <= t < j ==> hay@[i + t] == pat@[t],
        decreases pn - j,
    {
        if hay.get_char(i + j) != pat.get_char(j) {
            proof {
                assert(hay@.subrange(i as int, i as int + pn as int)[j as int] == hay@[i + j]);
            }
            return false;
        }
        j = j + 1;
    }
    proof {
        assert(hay@.subrange(i as int, i as int + pn as int) =~= pat@);
    }
    true
}

/// Whether `pat` occurs anywhere in `hay`, by positions of characters.
pub fn str_contains_pattern(hay: &str, pat: &str) -> (b: bool)
    ensures
        b == contains_subseq(hay@, pat@),
{
    let hn: usize = hay.unicode_len();
    let pn: usize = pat.unicode_len();
    if pn > hn {
        proof {
            if contains_subseq(hay@, pat@) {
                let i = choose|i: int|
                    0 <= i && i + pat@.len() <= hay@.len() && #[trigger] hay@.subrange(
                        i,
                        i + pat@.len(),
                    ) == pat@;
                assert(false);
            }
        }
        return false;
    }
    if pn == 0 {
        proof {
            assert(hay@.subrange(0, 0 + pat@.len() as int) =~= pat@);
        }
        return true;
    }
    let mut i: usize = 0;
    while i <= hn - pn
        invariant
            hn == hay@.len(),
            pn == pat@.len(),
            1 <= pn <= hn,
            0 <= i <= hn - pn + 1,
            forall|s: int| 0 <= s < i ==> #[trigger] hay@.subrange(s, s + pn) != pat@,
        decreases hn - pn - i + 1,
    {
        if match_at(hay, pat, i, hn, pn) {
            return true;
        }
        i = i + 1;
    }
    proof {
        if contains_subseq(hay@, pat@) {
            let s = choose|s: int|
                0 <= s && s + pat@.len() <= hay@.len() && #[trigger] hay@.subrange(
                    s,
                    s + pat@.len(),
                ) == pat@;
            assert(s < i);
        }
    }
    false
}

/// A textual entity id, such as `User::"alice"`.
#[derive(Debug, Clone, PartialEq, Eq, PartialOrd, Ord, Hash)]
pub struct Uid(String);

impl View for Uid {
    type V = Seq<char>;

    closed spec fn view(&self) -> Seq<char> {
        self.0@
    }
}

impl Uid {
    /// The text of the id.
    pub fn text(&self) -> (r: &str)
        ensures
            r@ == self@,
    {
        self.0.as_str()
    }

    /// A fresh copy of the id.
    pub fn dup(&self) -> (r: Uid)
        ensures
            r == *self,
    {
        Uid(self.0.clone())
    }

    /// Whether this id reads as the same text as another.
    pub fn text_matches(&self, other: &Uid) -> (r: bool)
        ensures
            r == (self@ == other@),
    {
        self.0.eq(&other.0)
    }

    /// Whether the id names a user, judged by its text containing the
    /// `User` marker.
    pub fn is_user(&self) -> (b: bool)
        ensures
            b == contains_subseq(self@, "User"@),
    {
        str_contains_pattern(self.0.as_str(), "User")
    }
}

/// The text of an id assembled from a group name and a member name.
pub open spec fn uid_text(group: Seq<char>, id: Seq<char>) -> Seq<char> {
    group + seq![':', ':', '"'] + id + seq!['"']
}

/// Assemble the id `group::"id"`.
pub fn make_uid(group: &str, id: &str) -> (u: Uid)
    ensures
        u@ == uid_text(group@, id@),
{
    let s = String::from_str(group).concat("::\"").concat(id).concat("\"");
    proof {
        reveal_strlit("::\"");
        reveal_strlit("\"");
        assert(("::\""@) =~= seq![':', ':', '"']);
        assert(("\""@) =~= seq!['"']);
        assert(s@ =~= uid_text(group@, id@));
    }
    Uid(s)
}

/// The fixed id of the application entity.
pub fn application() -> (u: Uid)
    ensures
        u@ == uid_text("Application"@, "TinyTodo"@),
{
    make_uid("Application", "TinyTodo")
}

/// Anything that carries a `Uid`.
pub trait HasId {
    /// The id this value carries.
    spec fn spec_id(&self) -> Uid;

    fn id(&self) -> (u: Uid)
        ensures
            u == self.spec_id(),
    ;
}

/// An entity of the generated workload: its id and its parent ids.
#[derive(Debug, Clone)]
pub struct Entity {
    pub euid: Uid,
    pub parents: Vec<Uid>,
}

impl HasId for Entity {
    open spec fn spec_id(&self) -> Uid {
        self.euid
    }

    fn id(&self) -> (u: Uid) {
        self.euid.dup()
    }
}

/// A fresh copy of a list of ids.
fn copy_uids(v: &Vec<Uid>) -> (r: Vec<Uid>)
    ensures
        r@ == v@,
{
    let mut r: Vec<Uid> = Vec::new();
    let n: usize = v.len();
    let mut i: usize = 0;
    while i < n
        invariant
            0 <= i <= n,
            n == v@.len(),
            r@ == v@.subrange(0, i as int),
        decreases n - i,
    {
        r.push(v[i].dup());
        proof {
            assert(r@ =~= v@.subrange(0, i as int + 1));
        }
        i = i + 1;
    }
    proof {
        assert(r@ =~= v@);
    }
    r
}

/// The group-membership entry of one entity: its id with its parents.
pub fn entity_to_group_entry(e: &Entity) -> (r: (Uid, Vec<Uid>))
    ensures
        r.0 == e.euid,
        r.1@ == e.parents@,
{
    (e.euid.dup(), copy_uids(&e.parents))
}

/// Two ids read as the same text. This is the equality under which a
/// mapping is keyed.
fn uid_text_eq(a: &Uid, b: &Uid) -> (r: bool)
    ensures
        r == (a@ == b@),
{
    a.text_matches(b)
}

/// No entity after position `i` carries the same id text as the entity
/// at `i`; such an entity owns its id in the mapping.
#[verifier::opaque]
pub open spec fn last_with_id<E: HasId>(entities: Seq<E>, i: int) -> bool {
    forall|j: int|
        i < j < entities.len() ==> (#[trigger] entities[j]).spec_id()@ != entities[i].spec_id()@
}

/// The value is one of the given entities, taken from a position after
/// which its id text never occurs again: the entity that owns its id.
pub open spec fn from_last_owner<E: HasId>(entities: Seq<E>, v: E) -> bool {
    exists|i: int|
        0 <= i < entities.len() && v == #[trigger] entities[i] && last_with_id(entities, i)
}

/// Key every entity by its id, keeping for each id text only the last
/// entity of the input that carries it, in input order of the survivors.
pub fn construct_mapping<E: HasId>(entities: Vec<E>) -> (r: Vec<(Uid, E)>)
    ensures
        forall|t: int| 0 <= t < r@.len() ==> (#[trigger] r@[t]).0 == r@[t].1.spec_id(),
        forall|t: int, u: int| 0 <= t < u < r@.len() ==> (#[trigger] r@[t]).0@ != (
        #[trigger] r@[u]).0@,
        forall|t: int| 0 <= t < r@.len() ==> from_last_owner(entities@, (#[trigger] r@[t]).1),
        forall|i: int|
            0 <= i < entities@.len() && last_with_id(entities@, i) ==> exists|t: int|
                0 <= t < r@.len() && (#[trigger] r@[t]).1 == entities@[i],
{
    let ghost orig = entities@;
    let ghost n = orig.len() as int;
    let mut rest = entities;
    let mut r: Vec<(Uid, E)> = Vec::new();
    let ghost mut srcs: Seq<int> = Seq::empty();
    while rest.len() > 0
        invariant
            n == orig.len(),
            r@.len() + rest@.len() <= n,
            rest@ == orig.subrange(n - rest@.len(), n),
            srcs.len() == r@.len(),
            forall|t: int|
                0 <= t < r@.len() ==> 0 <= #[trigger] srcs[t] < n - rest@.len() && r@[t].1
                    == orig[srcs[t]] && last_with_id(orig, srcs[t]),
            forall|t: int| 0 <= t < r@.len() ==> (#[trigger] r@[t]).0 == r@[t].1.spec_id(),
            forall|t: int, u: int| 0 <= t < u < r@.len() ==> (#[trigger] r@[t]).0@ != (
            #[trigger] r@[u]).0@,
            forall|i: int|
                0 <= i < n - rest@.len() && last_with_id(orig, i) ==> exists|t: int|
                    0 <= t < r@.len() && (#[trigger] r@[t]).1 == orig[i],
        decreases rest@.len(),
    {
        let ghost here = n - rest@.len() as int;
        let ghost rest_pre = rest@;
        let e = rest.remove(0);
        proof {
            assert(rest_pre[0] == orig.subrange(here, n)[0]);
            assert(e == orig[here]);
            assert(rest@ =~= orig.subrange(here + 1, n));
        }
        let k = e.id();
        // The entity owns its id only when nothing later carries it too.
        let m: usize = rest.len();
        let mut later_dup: bool = false;
        let mut j: usize = 0;
        while j < m
            invariant
                m == rest@.len(),
                0 <= j <= m,
                k == e.spec_id(),
                later_dup == exists|v: int|
                    0 <= v < j && (#[trigger] rest@[v]).spec_id()@ == k@,
            decreases m - j,
        {
            let other_id = rest[j].id();
            if uid_text_eq(&other_id, &k) {
                proof {
                    assert(rest@[j as int].spec_id()@ == k@);
                }
                later_dup = true;
            }
            proof {
                if later_dup && !(exists|v: int|
                    0 <= v < j + 1 && (#[trigger] rest@[v]).spec_id()@ == k@) {
                    assert(false);
                }
            }
            j = j + 1;
        }
        let ghost r_pre = r@;
        let ghost srcs_pre = srcs;
        if !later_dup {
            proof {
                assert(last_with_id(orig, here)) by {
                    reveal(last_with_id);
                    assert forall|j2: int|
                        here < j2 < n implies (#[trigger] orig[j2]).spec_id()@
                        != orig[here].spec_id()@ by {
                        assert(rest@[j2 - (here + 1)] == orig[j2]);
                    }
                }
            }
            r.push((k, e));
            proof {
                srcs = srcs.push(here);
                assert(r@[r_pre.len() as int] == (k, e));
                assert(k == orig[here].spec_id());
                assert forall|t: int|
                    0 <= t < r@.len() implies 0 <= #[trigger] srcs[t] < n - rest@.len() && r@[t].1
                    == orig[srcs[t]] && last_with_id(orig, srcs[t]) by {
                    if t < r_pre.len() as int {
                        assert(r@[t] == r_pre[t]);
                        assert(srcs[t] == srcs_pre[t]);
                    } else {
                        assert(srcs[t] == here);
                        assert(r@[t].1 == orig[here]);
                    }
                }
                assert forall|t: int, u: int|
                    0 <= t < u < r@.len() implies (#[trigger] r@[t]).0@ != (
                #[trigger] r@[u]).0@ by {
                    if u == r_pre.len() as int {
                        // An earlier pair with this id text would come from
                        // an earlier entity that owns its id, though this
                        // entity carries the same text later: impossible.
                        assert(r@[t] == r_pre[t]);
                        if r@[t].0@ == k@ {
                            let i1 = srcs_pre[t];
                            assert(0 <= i1 < here && r_pre[t].1 == orig[i1] && last_with_id(
                                orig,
                                i1,
                            ));
                            assert(orig[here].spec_id()@ != orig[i1].spec_id()@) by {
                                reveal(last_with_id);
                            }
                            assert(r_pre[t].0 == r_pre[t].1.spec_id());
                            assert(false);
                        }
                    } else {
                        assert(r@[t] == r_pre[t]);
                        assert(r@[u] == r_pre[u]);
                    }
                }
                assert forall|i: int|
                    0 <= i < n - rest@.len() && last_with_id(orig, i) implies exists|t: int|
                    0 <= t < r@.len() && (#[trigger] r@[t]).1 == orig[i] by {
                    if i == here {
                        assert(r@[r_pre.len() as int].1 == orig[here]);
                    } else {
                        let t0 = choose|t0: int|
                            0 <= t0 < r_pre.len() && (#[trigger] r_pre[t0]).1 == orig[i];
                        assert(r@[t0].1 == orig[i]);
                    }
                }
            }
        } else {
            proof {
                // Something later carries the same id text, so this
                // entity owes nothing to the mapping.
                let v = choose|v: int| 0 <= v < m && (#[trigger] rest@[v]).spec_id()@ == k@;
                assert(rest@[v] == orig[here + 1 + v]);
                assert(orig[here + 1 + v].spec_id()@ == orig[here].spec_id()@);
                assert(!last_with_id(orig, here)) by {
                    reveal(last_with_id);
                }
                assert forall|i: int|
                    0 <= i < n - rest@.len() && last_with_id(orig, i) implies exists|t: int|
                    0 <= t < r@.len() && (#[trigger] r@[t]).1 == orig[i] by {
                    if i == here {
                        assert(false);
                    } else {
                        let t0 = choose|t0: int|
                            0 <= t0 < r@.len() && (#[trigger] r@[t0]).1 == orig[i];
                        assert(r@[t0].1 == orig[i]);
                    }
                }
            }
        }
    }
    proof {
        assert(orig.subrange(0, n) =~= orig);
        assert forall|t: int| 0 <= t < r@.len() implies from_last_owner(
            orig,
            (#[trigger] r@[t]).1,
        ) by {
            let i0 = srcs[t];
            assert(0 <= i0 < orig.len() && r@[t].1 == orig[i0] && last_with_id(orig, i0));
        }
    }
    r
}

/// Failure of the name generator: the randomness source kept yielding
/// names that were already taken.
#[derive(Debug, Clone, Copy, PartialEq, Eq)]
pub enum GenError {
    Exhausted,
}

#[verifier::external_type_specification]
#[verifier::external_body]
pub struct ExUnstructured<'a>(arbitrary::Unstructured<'a>);

/// Relies on arbitrary::Unstructured::int_in_range: for a non-empty
/// range it always yields a value inside the range, consuming bytes
/// from the underlying data (and falling back to the range start once
/// the data is exhausted). Nothing else can be promised of a drawn
/// value.
#[verifier::external_body]
fn draw_byte_in_range(u: &mut arbitrary::Unstructured<'_>, lo: u8, hi: u8) -> (r: u8)
    requires
        lo <= hi,
    ensures
        lo <= r <= hi,
{
    u.int_in_range(lo..=hi).unwrap_or(lo)
}

/// Relies on String::from_utf8: bytes below 128 are valid single-byte
/// UTF-8 and decode to the characters with the same code points.
#[verifier::external_body]
fn ascii_bytes_to_string(bytes: Vec<u8>) -> (r: String)
    requires
        forall|i: int| 0 <= i < bytes@.len() ==> bytes@[i] < 128,
    ensures
        r@.len() == bytes@.len(),
        forall|i: int| 0 <= i < bytes@.len() ==> (#[trigger] r@[i]) == bytes@[i] as char,
{
    String::from_utf8(bytes).unwrap_or_default()
}

/// A five-letter name of capital letters drawn from the byte source.
fn alphaname(u: &mut arbitrary::Unstructured<'_>) -> (r: String)
    ensures
        r@.len() == 5,
        forall|i: int| 0 <= i < r@.len() ==> 65 <= (#[trigger] r@[i]) as u32 <= 90,
{
    let mut bytes: Vec<u8> = Vec::new();
    let mut c: usize = 0;
    while c < 5
        invariant
            0 <= c <= 5,
            bytes@.len() == c,
            forall|i: int| 0 <= i < bytes@.len() ==> 65 <= #[trigger] bytes@[i] <= 90,
        decreases 5 - c,
    {
        let b = draw_byte_in_range(u, 65, 90);
        bytes.push(b);
        c = c + 1;
    }
    ascii_bytes_to_string(bytes)
}

/// One of the recorded names reads as the given text.
pub open spec fn spec_holds_name(cs: Seq<String>, name: Seq<char>) -> bool {
    exists|i: int| 0 <= i < cs.len() && (#[trigger] cs[i])@ == name
}

/// Whether the list holds a string with the same text.
fn contains_string(v: &Vec<String>, s: &String) -> (b: bool)
    ensures
        b == spec_holds_name(v@, s@),
{
    let n: usize = v.len();
    let mut i: usize = 0;
    while i < n
        invariant
            0 <= i <= n,
            n == v@.len(),
            forall|j: int| 0 <= j < i ==> (#[trigger] v@[j])@ != s@,
        decreases n - i,
    {
        if v[i].eq(s) {
            return true;
        }
        i = i + 1;
    }
    false
}

/// Draws names that were not drawn before, recording what it hands out.
pub struct NameGenerator {
    contents: Vec<String>,
}

impl NameGenerator {
    /// The names handed out so far.
    pub closed spec fn spec_taken(&self) -> Seq<String> {
        self.contents@
    }

    /// Record nothing handed out yet.
    pub fn new() -> (r: NameGenerator)
        ensures
            r.spec_taken() == Seq::<String>::empty(),
    {
        NameGenerator { contents: Vec::new() }
    }

    /// Draw a name nobody holds yet: five capital letters, not among the
    /// names handed out before, which it records. Gives up after a fixed
    /// number of colliding draws.
    pub fn fresh(&mut self, u: &mut arbitrary::Unstructured<'_>) -> (r: Result<String, GenError>)
        ensures
            match r {
                Ok(name) => {
                    &&& name@.len() == 5
                    &&& (forall|i: int| 0 <= i < name@.len() ==> 65 <= (#[trigger] name@[i]) as u32
                        <= 90)
                    &&& !spec_holds_name(old(self).spec_taken(), name@)
                    &&& final(self).spec_taken() == old(self).spec_taken().push(name)
                },
                Err(_) => final(self).spec_taken() == old(self).spec_taken(),
            },
    {
        let mut attempts: usize = 0;
        while attempts < 50
            invariant
                self.contents@ == old(self).contents@,
            decreases 50 - attempts,
        {
            let name = alphaname(u);
            if !contains_string(&self.contents, &name) {
                let stored = name.clone();
                self.contents.push(stored);
                return Ok(name);
            }
            attempts = attempts + 1;
        }
        Err(GenError::Exhausted)
    }
}

/// The limit values that bound one generation run.
#[derive(Debug, Clone, Copy, PartialEq, Eq, Structural)]
pub struct GeneratorLimits {
    pub tasks: usize,
    pub lists: usize,
    pub users: usize,
    pub requests: usize,
    pub team_depth: usize,
}

/// Two to the given power.
pub open spec fn pow2(k: nat) -> nat
    decreases k,
{
    if k == 0 {
        1nat
    } else {
        2 * pow2((k - 1) as nat)
    }
}

/// The floor of the base-two logarithm.
pub fn log2_floor(n: usize) -> (r: usize)
    requires
        n >= 1,
    ensures
        pow2(r as nat) <= n < pow2(r as nat + 1),
{
    let mut r: usize = 0;
    let mut p: usize = 1;
    while p <= n / 2
        invariant
            1 <= p <= n,
            r < p,
            p == pow2(r as nat),
        decreases n - p,
    {
        p = p * 2;
        r = r + 1;
        proof {
            assert(pow2(r as nat) == 2 * pow2((r - 1) as nat));
        }
    }
    proof {
        assert(pow2(r as nat + 1) == 2 * pow2(r as nat));
    }
    r
}

/// Sizing of one generated workload.
#[derive(Debug)]
pub struct TinyTodoConfig {
    tasks: usize,
    lists: usize,
    users: usize,
    requests: usize,
    team_depth: usize,
    pub cedar_only: bool,
}

impl Default for TinyTodoConfig {
    /// Twenty tasks, everything else empty, comparison engines off.
    fn default() -> (r: TinyTodoConfig)
        ensures
            r.spec_limits() == (GeneratorLimits {
                tasks: 20,
                lists: 0,
                users: 0,
                requests: 0,
                team_depth: 0,
            }),
            r.spec_cedar_only() == true,
    {
        TinyTodoConfig {
            tasks: 20,
            lists: 0,
            users: 0,
            requests: 0,
            team_depth: 0,
            cedar_only: true,
        }
    }
}

impl TinyTodoConfig {
    /// Whether comparison engines are off for this run.
    pub closed spec fn spec_cedar_only(&self) -> bool {
        self.cedar_only
    }

    /// The five limit values of this configuration.
    pub closed spec fn spec_limits(&self) -> GeneratorLimits {
        GeneratorLimits {
            tasks: self.tasks,
            lists: self.lists,
            users: self.users,
            requests: self.requests,
            team_depth: self.team_depth,
        }
    }

    /// The generator limits this configuration applies to a run.
    pub fn apply_config(&self) -> (l: GeneratorLimits)
        ensures
            l == self.spec_limits(),
    {
        GeneratorLimits {
            tasks: self.tasks,
            lists: self.lists,
            users: self.users,
            requests: self.requests,
            team_depth: self.team_depth,
        }
    }

    /// A configuration sized uniformly: every dimension gets the given
    /// size, and team trees are as deep as the size's base-two logarithm.
    pub fn with(entities_size: usize, cedar_only: bool) -> (c: TinyTodoConfig)
        ensures
            c.spec_limits().tasks == entities_size,
            c.spec_limits().lists == entities_size,
            c.spec_limits().users == entities_size,
            c.spec_limits().requests == entities_size,
            c.spec_cedar_only() == cedar_only,
            entities_size == 0 ==> c.spec_limits().team_depth == 0,
            entities_size >= 1 ==> pow2(c.spec_limits().team_depth as nat) <= entities_size < pow2(
                c.spec_limits().team_depth as nat + 1,
            ),
    {
        let team_depth: usize = if entities_size == 0 {
            0
        } else {
            log2_floor(entities_size)
        };
        TinyTodoConfig {
            tasks: entities_size,
            lists: entities_size,
            users: entities_size,
            requests: entities_size,
            team_depth,
            cedar_only,
        }
    }

    /// The size of the workload, measured in lists.
    pub fn size(&self) -> (r: usize)
        ensures
            r == self.spec_limits().lists,
    {
        self.lists
    }
}

/// The ghost shape of an entity: its id text and its parents' texts.
#[verifier::ext_equal]
pub struct EntityView {
    pub euid: Seq<char>,
    pub parents: Seq<Seq<char>>,
}

impl View for Entity {
    type V = EntityView;

    open spec fn view(&self) -> EntityView {
        EntityView { euid: self.euid@, parents: self.parents@.map_values(|u: Uid| u@) }
    }
}

/// A list with the value of the option, or an empty list.
pub fn option_to_vec<T>(o: Option<T>) -> (r: Vec<T>)
    ensures
        r@ == match o {
            Some(t) => seq![t],
            None => Seq::<T>::empty(),
        },
{
    match o {
        Some(t) => {
            let mut v: Vec<T> = Vec::new();
            v.push(t);
            v
        },
        None => Vec::new(),
    }
}

/// An entity whose only parent is the application itself.
pub fn make_orphan(uid: Uid) -> (e: Entity)
    ensures
        e.euid == uid,
        e.parents@.len() == 1,
        e.parents@[0]@ == uid_text("Application"@, "TinyTodo"@),
{
    Entity { euid: uid, parents: option_to_vec(Some(application())) }
}

/// A binary tree of teams; leaves may be empty.
pub enum TeamTree {
    Node { team: Uid, left: Box<TeamTree>, right: Box<TeamTree> },
    Leaf(Option<Uid>),
}

impl TeamTree {
    /// An inner node over two subtrees.
    pub fn node(team: Uid, left: TeamTree, right: TeamTree) -> (t: TeamTree)
        ensures
            t matches TeamTree::Node { team: t2, left: l2, right: r2 } && t2 == team && *l2 == left
                && *r2 == right,
    {
        TeamTree::Node { team, left: Box::new(left), right: Box::new(right) }
    }
}

/// The id text of an optional parent.
pub open spec fn opt_uid_view(p: Option<Uid>) -> Option<Seq<char>> {
    match p {
        Some(u) => Some(u@),
        None => None,
    }
}

/// The parent list an optional parent contributes.
pub open spec fn opt_parent_texts(p: Option<Seq<char>>) -> Seq<Seq<char>> {
    match p {
        Some(s) => seq![s],
        None => Seq::empty(),
    }
}

/// The entities a team tree flattens to, under an optional parent: the
/// left subtree's, then the right subtree's, then the node itself.
pub open spec fn tree_entities(t: TeamTree, parent: Option<Seq<char>>) -> Seq<EntityView>
    decreases t,
{
    match t {
        TeamTree::Node { team, left, right } => tree_entities(*left, Some(team@)) + tree_entities(
            *right,
            Some(team@),
        ) + seq![EntityView { euid: team@, parents: opt_parent_texts(parent) }],
        TeamTree::Leaf(Some(euid)) => seq![
            EntityView { euid: euid@, parents: opt_parent_texts(parent) },
        ],
        TeamTree::Leaf(None) => Seq::empty(),
    }
}

/// A fresh copy of an optional id.
fn opt_uid_dup(p: &Option<Uid>) -> (r: Option<Uid>)
    ensures
        r == *p,
{
    match p {
        Some(u) => Some(u.dup()),
        None => None,
    }
}

/// Flatten a team tree into entities, each parented on the team above
/// it (or on `parent` for the root).
pub fn tree_to_entities(t: TeamTree, parent: Option<Uid>) -> (r: Vec<Entity>)
    ensures
        r@.map_values(|e: Entity| e@) == tree_entities(t, opt_uid_view(parent)),
    decreases t,
{
    match t {
        TeamTree::Node { team, left, right } => {
            let this = Entity { euid: team.dup(), parents: option_to_vec(opt_uid_dup(&parent)) };
            proof {
                assert(this.parents@.map_values(|u: Uid| u@) =~= opt_parent_texts(
                    opt_uid_view(parent),
                ));
            }
            let mut acc = tree_to_entities(*left, Some(team.dup()));
            let mut right_v = tree_to_entities(*right, Some(team));
            acc.append(&mut right_v);
            acc.push(this);
            proof {
                assert(this@ =~~= (EntityView {
                    euid: team@,
                    parents: opt_parent_texts(opt_uid_view(parent)),
                }));
                assert(acc@.map_values(|e: Entity| e@) =~~= tree_entities(t, opt_uid_view(parent)));
            }
            acc
        },
        TeamTree::Leaf(Some(euid)) => {
            let this = Entity { euid, parents: option_to_vec(opt_uid_dup(&parent)) };
            let mut v: Vec<Entity> = Vec::new();
            v.push(this);
            proof {
                assert(this@.parents =~~= opt_parent_texts(opt_uid_view(parent)));
                assert(v@.map_values(|e: Entity| e@) =~~= tree_entities(t, opt_uid_view(parent)));
            }
            v
        },
        TeamTree::Leaf(None) => {
            let v: Vec<Entity> = Vec::new();
            proof {
                assert(v@.map_values(|e: Entity| e@) =~~= tree_entities(t, opt_uid_view(parent)));
            }
            v
        },
    }
}

impl Default for NameGenerator {
    /// A generator that has handed out nothing yet.
    fn default() -> (r: NameGenerator)
        ensures
            r.spec_taken() == Seq::<String>::empty(),
    {
        NameGenerator { contents: Vec::new() }
    }
}

/// Whether a generated request should be authorized or drawn blindly.
#[derive(Debug, Clone, Copy)]
pub enum RequestKind {
    Success,
    Random,
}

/// The flavor of action a generated request carries.
#[derive(Debug, Clone, Copy)]
pub enum ActionKind {
    Read,
    Write,
    Public,
}

/// A two-way draw.
#[derive(Debug, Clone, Copy)]
pub enum Coin {
    Head,
    Tail,
}

/// A generated authorization request in textual form. Generated
/// requests carry no context.
#[derive(Debug, Clone)]
pub struct Request {
    pub principal: Uid,
    pub action: Uid,
    pub resource: Uid,
}

/// The group data and requests handed to the policy-language engine.
#[derive(Debug, Clone)]
pub struct OpaOutput {
    pub policy: String,
    pub namespace: &'static str,
    pub requests: Vec<OpaField>,
}

/// One request together with the data it is judged against.
#[derive(Debug, Clone)]
pub struct OpaField {
    pub request: OpaRequest,
    pub data: OpaData,
}

/// A request in the policy-language engine's shape.
#[derive(Debug, Clone)]
pub struct OpaRequest {
    pub principal: Uid,
    pub action: Uid,
    pub resource: OpaResource,
}

/// A resource with its owner and its reader and writer groups.
#[derive(Debug, Clone)]
pub struct OpaResource {
    pub owner: Uid,
    pub readers: Vec<Uid>,
    pub writers: Vec<Uid>,
}

/// The group membership data: each id with its parents.
#[derive(Debug, Clone)]
pub struct OpaData {
    pub groups: Vec<(Uid, Vec<Uid>)>,
}

} // verus!
