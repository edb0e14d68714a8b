//! Hypotheses: how far one has come, and the table that holds them.
//!
//! A hypothesis goes from draft over reviewed and in tournament to ranked. It
//! can be pinned or rejected at any time, which ends its way.

use vstd::prelude::*;

use crate::clock::now_text;
use crate::text::{decimal_int, joined, opt_view, str_eq};

verus! {

/// How far a hypothesis has come.
#[derive(Clone, Copy, Debug, PartialEq, Eq, Structural)]
pub enum HypothesisState {
    Draft,
    Reviewed,
    InTournament,
    Ranked,
    Pinned,
    Rejected,
}

impl HypothesisState {
    /// The name of a state in the store.
    pub open spec fn name(self) -> Seq<char> {
        match self {
            HypothesisState::Draft => "draft"@,
            HypothesisState::Reviewed => "reviewed"@,
            HypothesisState::InTournament => "in_tournament"@,
            HypothesisState::Ranked => "ranked"@,
            HypothesisState::Pinned => "pinned"@,
            HypothesisState::Rejected => "rejected"@,
        }
    }

    /// The name of a state in the store.
    pub fn as_str(self) -> (r: &'static str)
        ensures
            r@ == self.name(),
    {
        match self {
            HypothesisState::Draft => "draft",
            HypothesisState::Reviewed => "reviewed",
            HypothesisState::InTournament => "in_tournament",
            HypothesisState::Ranked => "ranked",
            HypothesisState::Pinned => "pinned",
            HypothesisState::Rejected => "rejected",
        }
    }

    /// The state with that name.
    pub fn parse(s: &str) -> (r: Option<HypothesisState>)
        ensures
            match r {
                Some(st) => st.name() == s@,
                None => forall|st: HypothesisState| #[trigger] st.name() != s@,
            },
    {
        if str_eq(s, "draft") {
            Some(HypothesisState::Draft)
        } else if str_eq(s, "reviewed") {
            Some(HypothesisState::Reviewed)
        } else if str_eq(s, "in_tournament") {
            Some(HypothesisState::InTournament)
        } else if str_eq(s, "ranked") {
            Some(HypothesisState::Ranked)
        } else if str_eq(s, "pinned") {
            Some(HypothesisState::Pinned)
        } else if str_eq(s, "rejected") {
            Some(HypothesisState::Rejected)
        } else {
            None
        }
    }

    /// How far along a state is.
    pub open spec fn rank(self) -> int {
        match self {
            HypothesisState::Draft => 0,
            HypothesisState::Reviewed => 1,
            HypothesisState::InTournament => 2,
            HypothesisState::Ranked => 3,
            HypothesisState::Pinned => 99,
            HypothesisState::Rejected => 99,
        }
    }

    /// How far along a state is.
    fn order(self) -> (r: u8)
        ensures
            r == self.rank(),
    {
        match self {
            HypothesisState::Draft => 0,
            HypothesisState::Reviewed => 1,
            HypothesisState::InTournament => 2,
            HypothesisState::Ranked => 3,
            HypothesisState::Pinned => 99,
            HypothesisState::Rejected => 99,
        }
    }

    /// The state after an update to `to`.
    pub open spec fn updated(self, to: HypothesisState, force: bool) -> HypothesisState {
        if force || self.rank() < to.rank() {
            to
        } else {
            self
        }
    }

    /// The state after an update to `to`: only forward, unless it is forced.
    pub fn advance(self, to: HypothesisState, force: bool) -> (r: HypothesisState)
        ensures
            r == self.updated(to, force),
    {
        if force || self.order() < to.order() {
            to
        } else {
            self
        }
    }

    /// Whether a hypothesis in this state is still in play.
    pub open spec fn active(self) -> bool {
        self != HypothesisState::Rejected && self != HypothesisState::Pinned
    }

    /// Whether a hypothesis in this state is still in play.
    pub fn is_active(self) -> (r: bool)
        ensures
            r == self.active(),
    {
        self != HypothesisState::Rejected && self != HypothesisState::Pinned
    }

    /// Whether a hypothesis in this state plays matches.
    pub fn plays_matches(self) -> (r: bool)
        ensures
            r == (self == HypothesisState::InTournament || self == HypothesisState::Ranked),
    {
        self == HypothesisState::InTournament || self == HypothesisState::Ranked
    }
}

/// Two states never share a name, so reading a written state gives it back.
pub proof fn law_state_names_are_distinct(a: HypothesisState, b: HypothesisState)
    requires
        a.name() == b.name(),
    ensures
        a == b,
{
    reveal_strlit("draft");
    reveal_strlit("reviewed");
    reveal_strlit("in_tournament");
    reveal_strlit("ranked");
    reveal_strlit("pinned");
    reveal_strlit("rejected");
    let s = a.name();
    let t = b.name();
    assert(s.len() == t.len() && s[0] == t[0] && s[2] == t[2]);
}

/// An update that is not forced never goes back, and changes nothing once a
/// hypothesis is pinned or rejected.
pub proof fn law_updates_never_regress(from: HypothesisState, to: HypothesisState)
    ensures
        from.updated(to, false).rank() >= from.rank(),
        !from.active() ==> from.updated(to, false) == from,
        from.updated(from.updated(to, false), false) == from.updated(to, false),
{
}

/// The state that a row of the store names, or what is wrong with it.
pub fn read_state(s: &str) -> (r: Result<HypothesisState, String>)
    ensures
        match r {
            Ok(st) => st.name() == s@,
            Err(e) => {
                &&& e@ == "unknown hypothesis state: "@ + s@
                &&& forall|st: HypothesisState| #[trigger] st.name() != s@
            },
        },
{
    match HypothesisState::parse(s) {
        Some(st) => Ok(st),
        None => {
            let mut e = "unknown hypothesis state: ".to_owned();
            e.append(s);
            Err(e)
        },
    }
}

// ----------------------------------------------------------------- parents

/// The ids that `serde_json` reads from a text; `None` where it reads none.
pub uninterp spec fn ids_in_json(text: Seq<char>) -> Option<Seq<i64>>;

/// A list of integers as JSON.
pub open spec fn ids_text(ids: Seq<i64>) -> Seq<char> {
    "["@ + joined(ids.map_values(|n: i64| decimal_int(n as int)), ","@) + "]"@
}

/// `serde_json::to_string` on a list of integers, which does not fail on one: the
/// numbers stand in brackets with commas between them, and the same list can be
/// read from the text again.
#[verifier::external_body]
fn json_of_ids(ids: &[i64]) -> (r: String)
    ensures
        r@ == ids_text(ids@),
        ids_in_json(r@) == Some(ids@),
{
    serde_json::to_string(ids).unwrap_or_default()
}

/// `serde_json::from_str` into a list of integers: what it reads depends on the
/// text alone.
#[verifier::external_body]
fn ids_from_json(text: &str) -> (r: Option<Vec<i64>>)
    ensures
        match r {
            Some(ids) => ids_in_json(text@) == Some(ids@),
            None => ids_in_json(text@) is None,
        },
{
    serde_json::from_str(text).ok()
}

/// The ids that a column holds: none where it is empty or cannot be read.
pub open spec fn parents_in(column: Option<Seq<char>>) -> Seq<i64> {
    match column {
        Some(text) => match ids_in_json(text) {
            Some(ids) => ids,
            None => Seq::empty(),
        },
        None => Seq::empty(),
    }
}

/// The column for the parents of a hypothesis: empty where it has none.
pub fn parents_column(ids: &[i64]) -> (r: Option<String>)
    ensures
        match r {
            Some(text) => ids@.len() > 0 && text@ == ids_text(ids@),
            None => ids@.len() == 0,
        },
        parents_in(opt_view(r)) == ids@,
{
    if ids.len() == 0 {
        proof {
            assert(ids@ =~= Seq::<i64>::empty());
        }
        None
    } else {
        Some(json_of_ids(ids))
    }
}

/// The parents that a column names.
pub fn read_parents(column: Option<&str>) -> (r: Vec<i64>)
    ensures
        r@ == parents_in(match column {
            Some(text) => Some(text@),
            None => None,
        }),
{
    match column {
        Some(text) => match ids_from_json(text) {
            Some(ids) => ids,
            None => Vec::new(),
        },
        None => Vec::new(),
    }
}

// ------------------------------------------------------------------- the rows

/// A row of the table.
#[derive(Debug)]
pub struct Hypothesis {
    pub id: i64,
    pub session_id: String,
    pub state: HypothesisState,
    /// The rating, as an integer that orders as ratings do.
    pub elo: i64,
    pub parent_ids: Vec<i64>,
    pub semantic_id: Option<i64>,
    pub matches_played: i64,
    pub created_at: String,
}

/// What a [`Hypothesis`] holds.
#[verifier::ext_equal]
pub struct HypothesisView {
    pub id: i64,
    pub session_id: Seq<char>,
    pub state: HypothesisState,
    pub elo: i64,
    pub parent_ids: Seq<i64>,
    pub semantic_id: Option<i64>,
    pub matches_played: i64,
    pub created_at: Seq<char>,
}

impl View for Hypothesis {
    type V = HypothesisView;

    open spec fn view(&self) -> HypothesisView {
        HypothesisView {
            id: self.id,
            session_id: self.session_id@,
            state: self.state,
            elo: self.elo,
            parent_ids: self.parent_ids@,
            semantic_id: self.semantic_id,
            matches_played: self.matches_played,
            created_at: self.created_at@,
        }
    }
}

/// What a list of rows holds.
pub open spec fn hyps_view(v: Seq<Hypothesis>) -> Seq<HypothesisView> {
    v.map_values(|h: Hypothesis| h@)
}

/// The same ids in a list of their own.
fn copy_ids(ids: &[i64]) -> (r: Vec<i64>)
    ensures
        r@ == ids@,
{
    let mut out: Vec<i64> = Vec::new();
    let mut i: usize = 0;
    while i < ids.len()
        invariant
            i <= ids@.len(),
            out@ == ids@.take(i as int),
        decreases ids.len() - i,
    {
        out.push(ids[i]);
        proof {
            assert(ids@.take(i + 1) =~= ids@.take(i as int).push(ids@[i as int]));
        }
        i += 1;
    }
    proof {
        assert(ids@.take(ids@.len() as int) =~= ids@);
    }
    out
}

impl Hypothesis {
    /// A copy of the row.
    pub fn copy(&self) -> (r: Hypothesis)
        ensures
            r@ == self@,
    {
        Hypothesis {
            id: self.id,
            session_id: self.session_id.as_str().to_owned(),
            state: self.state,
            elo: self.elo,
            parent_ids: copy_ids(self.parent_ids.as_slice()),
            semantic_id: self.semantic_id,
            matches_played: self.matches_played,
            created_at: self.created_at.as_str().to_owned(),
        }
    }
}

// ------------------------------------------------------------------ selection

/// Which rows of a session are meant.
#[derive(Clone, Copy, Debug, PartialEq, Eq, Structural)]
pub enum Wanted {
    All,
    /// Those that were not rejected.
    Standing,
    /// Those neither rejected nor pinned.
    Active,
    /// Active ones with at least so many matches.
    Mature(i64),
    /// Those that play and have had fewer matches.
    Unplayed(i64),
}

/// Whether a row of the session is meant.
pub open spec fn is_wanted(h: HypothesisView, session: Seq<char>, which: Wanted) -> bool {
    h.session_id == session && match which {
        Wanted::All => true,
        Wanted::Standing => h.state != HypothesisState::Rejected,
        Wanted::Active => h.state.active(),
        Wanted::Mature(n) => h.state.active() && h.matches_played >= n,
        Wanted::Unplayed(n) => (h.state == HypothesisState::InTournament || h.state
            == HypothesisState::Ranked) && h.matches_played < n,
    }
}

/// The rows of the session that are meant, in the order of the table.
pub open spec fn wanted(rows: Seq<HypothesisView>, session: Seq<char>, which: Wanted) -> Seq<
    HypothesisView,
>
    decreases rows.len(),
{
    if rows.len() == 0 {
        Seq::empty()
    } else {
        let before = wanted(rows.drop_last(), session, which);
        if is_wanted(rows.last(), session, which) {
            before.push(rows.last())
        } else {
            before
        }
    }
}

/// Whether a row of the session is meant.
fn wants(h: &Hypothesis, session: &str, which: Wanted) -> (r: bool)
    ensures
        r == is_wanted(h@, session@, which),
{
    str_eq(h.session_id.as_str(), session) && match which {
        Wanted::All => true,
        Wanted::Standing => h.state != HypothesisState::Rejected,
        Wanted::Active => h.state.is_active(),
        Wanted::Mature(n) => h.state.is_active() && h.matches_played >= n,
        Wanted::Unplayed(n) => h.state.plays_matches() && h.matches_played < n,
    }
}

// ---------------------------------------------------------------------- order

/// How a list is ordered.
#[derive(Clone, Copy, Debug, PartialEq, Eq, Structural)]
pub enum Ordered {
    /// The highest rating first.
    ByRating,
    /// The fewest matches first, and of those the highest rating.
    ByMatches,
}

/// Whether one row is listed before another.
pub open spec fn listed_before(a: HypothesisView, b: HypothesisView, by: Ordered) -> bool {
    match by {
        Ordered::ByRating => a.elo > b.elo,
        Ordered::ByMatches => a.matches_played < b.matches_played || (a.matches_played
            == b.matches_played && a.elo > b.elo),
    }
}

/// Whether nothing is listed behind what it comes before.
pub open spec fn in_order(v: Seq<HypothesisView>, by: Ordered) -> bool {
    forall|i: int, j: int| 0 <= i < j < v.len() ==> !listed_before(v[j], v[i], by)
}

/// Whether `out` lists the rows `from` in order.
pub open spec fn lists_in_order(from: Seq<HypothesisView>, by: Ordered, out: Seq<HypothesisView>) -> bool {
    in_order(out, by) && out.to_multiset() == from.to_multiset()
}

/// Whether `out` is a list of at most `n` of the rows `from`: the first ones of
/// all of them in order.
pub open spec fn lists_first(
    from: Seq<HypothesisView>,
    by: Ordered,
    n: nat,
    out: Seq<HypothesisView>,
) -> bool {
    exists|all: Seq<HypothesisView>| #[trigger]
        lists_in_order(from, by, all) && out == (if n < all.len() {
            all.take(n as int)
        } else {
            all
        })
}

/// Whether one row is listed before another.
fn comes_before(a: &Hypothesis, b: &Hypothesis, by: Ordered) -> (r: bool)
    ensures
        r == listed_before(a@, b@, by),
{
    match by {
        Ordered::ByRating => a.elo > b.elo,
        Ordered::ByMatches => a.matches_played < b.matches_played || (a.matches_played
            == b.matches_played && a.elo > b.elo),
    }
}

/// Puts a row behind those that come before it or are its equal.
fn insert_ordered(v: &mut Vec<Hypothesis>, h: Hypothesis, by: Ordered)
    requires
        in_order(hyps_view(old(v)@), by),
    ensures
        in_order(hyps_view(final(v)@), by),
        hyps_view(final(v)@).to_multiset() == hyps_view(old(v)@).to_multiset().insert(h@),
{
    let ghost had = hyps_view(v@);
    let ghost it = h@;
    let mut i: usize = 0;
    while i < v.len() && !comes_before(&h, &v[i], by)
        invariant
            i <= v@.len(),
            h@ == it,
            hyps_view(v@) == had,
            forall|j: int| 0 <= j < i ==> !listed_before(it, #[trigger] had[j], by),
        decreases v.len() - i,
    {
        proof {
            assert(had[i as int] == v@[i as int]@);
        }
        i += 1;
    }
    proof {
        if i < v@.len() {
            assert(had[i as int] == v@[i as int]@);
        }
    }
    v.insert(i, h);
    let ghost now = hyps_view(v@);
    proof {
        assert(now =~= had.insert(i as int, it));
        now.to_multiset_ensures();
        assert(now.remove(i as int) =~= had);
        assert(now.contains(now[i as int]));
        assert(had.to_multiset().insert(it) =~= now.to_multiset());
        assert forall|a: int, b: int| 0 <= a < b < now.len() implies !listed_before(
            now[b],
            now[a],
            by,
        ) by {
            if a == i {
                assert(now[b] == had[b - 1]);
                assert(listed_before(it, had[i as int], by));
                if b - 1 > i {
                    assert(!listed_before(had[b - 1], had[i as int], by));
                }
            } else if b != i {
                let x = if a < i { a } else { a - 1 };
                let y = if b < i { b } else { b - 1 };
                assert(now[a] == had[x] && now[b] == had[y]);
            }
        }
    }
}

// ----------------------------------------------------------------- the table

/// The table of hypotheses.
#[derive(Debug)]
pub struct HypothesisRepo {
    rows: Vec<Hypothesis>,
    last_id: i64,
}

/// What a [`HypothesisRepo`] holds: the rows in the order in which they came, and
/// the highest id that was ever given.
#[verifier::ext_equal]
pub struct RepoView {
    pub rows: Seq<HypothesisView>,
    pub last_id: i64,
}

impl View for HypothesisRepo {
    type V = RepoView;

    closed spec fn view(&self) -> RepoView {
        RepoView { rows: hyps_view(self.rows@), last_id: self.last_id }
    }
}

/// The first row with the id, looked for from place `i` on.
pub open spec fn row_from(rows: Seq<HypothesisView>, id: i64, i: int) -> Option<HypothesisView>
    decreases rows.len() - i,
{
    if i < 0 || i >= rows.len() {
        None
    } else if rows[i].id == id {
        Some(rows[i])
    } else {
        row_from(rows, id, i + 1)
    }
}

/// The row of a new hypothesis.
pub open spec fn drafted(
    id: i64,
    session: Seq<char>,
    semantic_id: Option<i64>,
    parent_ids: Seq<i64>,
    elo: i64,
    at: Seq<char>,
) -> HypothesisView {
    HypothesisView {
        id,
        session_id: session,
        state: HypothesisState::Draft,
        elo,
        parent_ids,
        semantic_id,
        matches_played: 0,
        created_at: at,
    }
}

/// Whether adding a draft makes `after` of `before` and gives the id `r`.
pub open spec fn inserts(
    before: RepoView,
    session: Seq<char>,
    semantic_id: Option<i64>,
    parent_ids: Seq<i64>,
    elo: i64,
    at: Seq<char>,
    after: RepoView,
    r: Option<i64>,
) -> bool {
    match r {
        Some(id) => {
            &&& id == before.last_id + 1
            &&& after == (RepoView {
                rows: before.rows.push(drafted(id, session, semantic_id, parent_ids, elo, at)),
                last_id: id,
            })
        },
        None => before.last_id == i64::MAX && after == before,
    }
}

/// The rows after an update of the state of one.
pub open spec fn restated(
    rows: Seq<HypothesisView>,
    id: i64,
    state: HypothesisState,
    force: bool,
) -> Seq<HypothesisView> {
    rows.map_values(
        |h: HypothesisView|
            if h.id == id {
                HypothesisView { state: h.state.updated(state, force), ..h }
            } else {
                h
            },
    )
}

/// The rows after an update of the rating of one.
pub open spec fn rerated(
    rows: Seq<HypothesisView>,
    id: i64,
    elo: i64,
    matches_played: i64,
) -> Seq<HypothesisView> {
    rows.map_values(
        |h: HypothesisView|
            if h.id == id {
                HypothesisView { elo, matches_played, ..h }
            } else {
                h
            },
    )
}

impl HypothesisRepo {
    /// An empty table.
    pub fn new() -> (r: HypothesisRepo)
        ensures
            r@ == (RepoView { rows: Seq::empty(), last_id: 0 }),
    {
        let r = HypothesisRepo { rows: Vec::new(), last_id: 0 };
        proof {
            assert(r@.rows =~= Seq::<HypothesisView>::empty());
        }
        r
    }

    /// The table with these rows, whose highest id ever given is `last_id`.
    pub fn from_rows(rows: Vec<Hypothesis>, last_id: i64) -> (r: HypothesisRepo)
        ensures
            r@ == (RepoView { rows: hyps_view(rows@), last_id }),
    {
        HypothesisRepo { rows, last_id }
    }

    /// How many rows there are.
    pub fn len(&self) -> (r: usize)
        ensures
            r == self@.rows.len(),
    {
        self.rows.len()
    }

    /// The row at a place.
    pub fn row(&self, i: usize) -> (r: &Hypothesis)
        requires
            i < self@.rows.len(),
        ensures
            r@ == self@.rows[i as int],
    {
        &self.rows[i]
    }

    /// Adds a draft and gives its id; `None` once the ids are used up.
    pub fn insert(
        &mut self,
        session_id: &str,
        semantic_id: Option<i64>,
        parent_ids: &[i64],
        initial_elo: i64,
    ) -> (r: Option<i64>)
        ensures
            exists|at: Seq<char>| #[trigger]
                inserts(
                    old(self)@,
                    session_id@,
                    semantic_id,
                    parent_ids@,
                    initial_elo,
                    at,
                    final(self)@,
                    r,
                ),
    {
        let at = now_text();
        let r = self.insert_at(session_id, semantic_id, parent_ids, initial_elo, at.as_str());
        proof {
            assert(inserts(
                old(self)@,
                session_id@,
                semantic_id,
                parent_ids@,
                initial_elo,
                at@,
                self@,
                r,
            ));
        }
        r
    }

    /// Adds a draft that was made at the time `created_at` and gives its id; `None`
    /// once the ids are used up.
    pub fn insert_at(
        &mut self,
        session_id: &str,
        semantic_id: Option<i64>,
        parent_ids: &[i64],
        initial_elo: i64,
        created_at: &str,
    ) -> (r: Option<i64>)
        ensures
            inserts(
                old(self)@,
                session_id@,
                semantic_id,
                parent_ids@,
                initial_elo,
                created_at@,
                final(self)@,
                r,
            ),
    {
        if self.last_id == i64::MAX {
            return None;
        }
        let ghost had = self@;
        let id: i64 = self.last_id + 1;
        let row = Hypothesis {
            id,
            session_id: session_id.to_owned(),
            state: HypothesisState::Draft,
            elo: initial_elo,
            parent_ids: copy_ids(parent_ids),
            semantic_id,
            matches_played: 0,
            created_at: created_at.to_owned(),
        };
        let ghost shown = row@;
        self.rows.push(row);
        self.last_id = id;
        proof {
            assert(self@.rows =~= had.rows.push(shown));
        }
        Some(id)
    }

    /// The row with the id.
    pub fn get(&self, id: i64) -> (r: Option<Hypothesis>)
        ensures
            match r {
                Some(h) => row_from(self@.rows, id, 0) == Some(h@),
                None => row_from(self@.rows, id, 0) is None,
            },
    {
        let mut i: usize = 0;
        while i < self.rows.len()
            invariant
                i <= self.rows@.len(),
                row_from(self@.rows, id, i as int) == row_from(self@.rows, id, 0),
            decreases self.rows.len() - i,
        {
            proof {
                assert(self@.rows[i as int] == self.rows@[i as int]@);
            }
            if self.rows[i].id == id {
                return Some(self.rows[i].copy());
            }
            i += 1;
        }
        None
    }

    /// Updates the state of a hypothesis: only forward, unless it is forced.
    pub fn update_state(&mut self, id: i64, state: HypothesisState, force: bool)
        ensures
            final(self)@ == (RepoView {
                rows: restated(old(self)@.rows, id, state, force),
                ..old(self)@
            }),
    {
        let ghost had = self@;
        let ghost goal = restated(had.rows, id, state, force);
        let n: usize = self.rows.len();
        let mut i: usize = 0;
        while i < n
            invariant
                i <= n,
                n == self.rows@.len(),
                n == had.rows.len(),
                goal == restated(had.rows, id, state, force),
                self.last_id == had.last_id,
                forall|j: int| 0 <= j < i ==> (#[trigger] self.rows@[j])@ == goal[j],
                forall|j: int| i <= j < n ==> (#[trigger] self.rows@[j])@ == had.rows[j],
            decreases n - i,
        {
            if self.rows[i].id == id {
                let next = self.rows[i].state.advance(state, force);
                let mut row = self.rows[i].copy();
                row.state = next;
                self.rows.set(i, row);
            }
            i += 1;
        }
        proof {
            assert(self@.rows =~= goal);
        }
    }

    /// Updates the rating of a hypothesis and how many matches it has played.
    pub fn update_elo(&mut self, id: i64, new_elo: i64, matches_played: i64)
        ensures
            final(self)@ == (RepoView {
                rows: rerated(old(self)@.rows, id, new_elo, matches_played),
                ..old(self)@
            }),
    {
        let ghost had = self@;
        let ghost goal = rerated(had.rows, id, new_elo, matches_played);
        let n: usize = self.rows.len();
        let mut i: usize = 0;
        while i < n
            invariant
                i <= n,
                n == self.rows@.len(),
                n == had.rows.len(),
                goal == rerated(had.rows, id, new_elo, matches_played),
                self.last_id == had.last_id,
                forall|j: int| 0 <= j < i ==> (#[trigger] self.rows@[j])@ == goal[j],
                forall|j: int| i <= j < n ==> (#[trigger] self.rows@[j])@ == had.rows[j],
            decreases n - i,
        {
            if self.rows[i].id == id {
                let mut row = self.rows[i].copy();
                row.elo = new_elo;
                row.matches_played = matches_played;
                self.rows.set(i, row);
            }
            i += 1;
        }
        proof {
            assert(self@.rows =~= goal);
        }
    }

    /// The rows of a session that are meant, in order.
    fn sorted(&self, session: &str, which: Wanted, by: Ordered) -> (r: Vec<Hypothesis>)
        ensures
            lists_in_order(wanted(self@.rows, session@, which), by, hyps_view(r@)),
    {
        let mut out: Vec<Hypothesis> = Vec::new();
        let mut i: usize = 0;
        let ghost rows = self@.rows;
        proof {
            assert(rows.take(0) =~= Seq::<HypothesisView>::empty());
            assert(hyps_view(out@) =~= Seq::<HypothesisView>::empty());
        }
        while i < self.rows.len()
            invariant
                i <= self.rows@.len(),
                rows == hyps_view(self.rows@),
                lists_in_order(wanted(rows.take(i as int), session@, which), by, hyps_view(out@)),
            decreases self.rows.len() - i,
        {
            proof {
                assert(rows.take(i + 1).drop_last() =~= rows.take(i as int));
                assert(rows.take(i + 1).last() == self.rows@[i as int]@);
            }
            if wants(&self.rows[i], session, which) {
                insert_ordered(&mut out, self.rows[i].copy(), by);
                proof {
                    wanted(rows.take(i as int), session@, which).to_multiset_ensures();
                }
            }
            i += 1;
        }
        proof {
            assert(rows.take(rows.len() as int) =~= rows);
        }
        out
    }

    /// How many rows of a session are meant.
    fn count(&self, session: &str, which: Wanted) -> (r: usize)
        ensures
            r == wanted(self@.rows, session@, which).len(),
    {
        let mut n: usize = 0;
        let mut i: usize = 0;
        let ghost rows = self@.rows;
        proof {
            assert(rows.take(0) =~= Seq::<HypothesisView>::empty());
        }
        while i < self.rows.len()
            invariant
                i <= self.rows@.len(),
                rows == hyps_view(self.rows@),
                n == wanted(rows.take(i as int), session@, which).len(),
                n <= i,
            decreases self.rows.len() - i,
        {
            proof {
                assert(rows.take(i + 1).drop_last() =~= rows.take(i as int));
                assert(rows.take(i + 1).last() == self.rows@[i as int]@);
            }
            if wants(&self.rows[i], session, which) {
                n += 1;
            }
            i += 1;
        }
        proof {
            assert(rows.take(rows.len() as int) =~= rows);
        }
        n
    }

    /// The hypotheses of a session, the highest rating first.
    pub fn list_by_session(&self, session_id: &str) -> (r: Vec<Hypothesis>)
        ensures
            lists_in_order(
                wanted(self@.rows, session_id@, Wanted::All),
                Ordered::ByRating,
                hyps_view(r@),
            ),
    {
        self.sorted(session_id, Wanted::All, Ordered::ByRating)
    }

    /// The hypothesis of a session that was added last.
    pub fn find_latest_hypothesis_id(&self, session_id: &str) -> (r: Option<i64>)
        ensures
            match r {
                Some(id) => exists|i: int|
                    {
                        &&& 0 <= i < self@.rows.len()
                        &&& (#[trigger] self@.rows[i]).id == id
                        &&& self@.rows[i].session_id == session_id@
                        &&& forall|j: int|
                            i < j < self@.rows.len() ==> (#[trigger] self@.rows[j]).session_id
                                != session_id@
                    },
                None => forall|j: int|
                    0 <= j < self@.rows.len() ==> (#[trigger] self@.rows[j]).session_id
                        != session_id@,
            },
            ({
                let own = wanted(self@.rows, session_id@, Wanted::All);
                r == (if own.len() > 0 {
                    Some(own.last().id)
                } else {
                    None
                })
            }),
    {
        let mut latest: Option<i64> = None;
        let mut i: usize = 0;
        let ghost rows = self@.rows;
        proof {
            assert(rows.take(0) =~= Seq::<HypothesisView>::empty());
        }
        while i < self.rows.len()
            invariant
                i <= self.rows@.len(),
                rows == hyps_view(self.rows@),
                rows == self@.rows,
                match latest {
                    Some(id) => exists|k: int|
                        {
                            &&& 0 <= k < i
                            &&& (#[trigger] rows[k]).id == id
                            &&& rows[k].session_id == session_id@
                            &&& forall|j: int|
                                k < j < i ==> (#[trigger] rows[j]).session_id != session_id@
                        },
                    None => forall|j: int|
                        0 <= j < i ==> (#[trigger] rows[j]).session_id != session_id@,
                },
                ({
                    let own = wanted(rows.take(i as int), session_id@, Wanted::All);
                    latest == (if own.len() > 0 {
                        Some(own.last().id)
                    } else {
                        None
                    })
                }),
            decreases self.rows.len() - i,
        {
            proof {
                assert(rows.take(i + 1).drop_last() =~= rows.take(i as int));
                assert(rows.take(i + 1).last() == self.rows@[i as int]@);
            }
            if wants(&self.rows[i], session_id, Wanted::All) {
                latest = Some(self.rows[i].id);
            }
            i += 1;
        }
        proof {
            assert(rows.take(rows.len() as int) =~= rows);
        }
        latest
    }

    /// The best `n` active hypotheses of a session, the best first.
    pub fn top_n(&self, session_id: &str, n: usize) -> (r: Vec<Hypothesis>)
        ensures
            lists_first(
                wanted(self@.rows, session_id@, Wanted::Active),
                Ordered::ByRating,
                n as nat,
                hyps_view(r@),
            ),
    {
        first(
            self.sorted(session_id, Wanted::Active, Ordered::ByRating),
            n,
            Ghost(wanted(self@.rows, session_id@, Wanted::Active)),
            Ordered::ByRating,
        )
    }

    /// How many active hypotheses of a session have played so many matches.
    pub fn mature_count(&self, session_id: &str, threshold: i64) -> (r: usize)
        ensures
            r == wanted(self@.rows, session_id@, Wanted::Mature(threshold)).len(),
    {
        self.count(session_id, Wanted::Mature(threshold))
    }

    /// How many hypotheses of a session were not rejected.
    pub fn total_count(&self, session_id: &str) -> (r: usize)
        ensures
            r == wanted(self@.rows, session_id@, Wanted::Standing).len(),
    {
        self.count(session_id, Wanted::Standing)
    }

    /// The hypotheses of a session that play and have had fewer matches than the
    /// threshold, at most `limit` of them, those with the fewest first.
    pub fn needs_matches(&self, session_id: &str, threshold: i64, limit: usize) -> (r: Vec<
        Hypothesis,
    >)
        ensures
            lists_first(
                wanted(self@.rows, session_id@, Wanted::Unplayed(threshold)),
                Ordered::ByMatches,
                limit as nat,
                hyps_view(r@),
            ),
    {
        first(
            self.sorted(session_id, Wanted::Unplayed(threshold), Ordered::ByMatches),
            limit,
            Ghost(wanted(self@.rows, session_id@, Wanted::Unplayed(threshold))),
            Ordered::ByMatches,
        )
    }
}

/// The first `n` rows of a list.
fn first(all: Vec<Hypothesis>, n: usize, from: Ghost<Seq<HypothesisView>>, by: Ordered) -> (r: Vec<
    Hypothesis,
>)
    requires
        lists_in_order(from@, by, hyps_view(all@)),
    ensures
        lists_first(from@, by, n as nat, hyps_view(r@)),
{
    let ghost whole = hyps_view(all@);
    let mut out = all;
    out.truncate(n);
    proof {
        assert(hyps_view(out@) =~= (if n < whole.len() {
            whole.take(n as int)
        } else {
            whole
        }));
        assert(lists_in_order(from@, by, whole));
    }
    out
}

// ----------------------------------------------------------------------- laws

/// Whether no two rows share an id, and none is beyond the highest one given.
pub open spec fn ids_distinct(t: RepoView) -> bool {
    &&& forall|i: int| 0 <= i < t.rows.len() ==> (#[trigger] t.rows[i]).id <= t.last_id
    &&& forall|i: int, j: int| 0 <= i < j < t.rows.len() ==> t.rows[i].id != t.rows[j].id
}

/// A new row gets an id of its own, and is what is found under it.
pub proof fn law_inserted_row_is_found(t: RepoView, row: HypothesisView)
    requires
        ids_distinct(t),
        row.id == t.last_id + 1,
    ensures
        ids_distinct(RepoView { rows: t.rows.push(row), last_id: row.id }),
        row_from(t.rows.push(row), row.id, 0) == Some(row),
{
    let now = t.rows.push(row);
    lemma_found_last(now, row.id, 0);
}

proof fn lemma_found_last(rows: Seq<HypothesisView>, id: i64, i: int)
    requires
        0 <= i < rows.len(),
        rows.last().id == id,
        forall|j: int| 0 <= j < rows.len() - 1 ==> (#[trigger] rows[j]).id != id,
    ensures
        row_from(rows, id, i) == Some(rows.last()),
    decreases rows.len() - i,
{
    if i < rows.len() - 1 {
        lemma_found_last(rows, id, i + 1);
    }
}

/// Updates keep every id, session and parent, and the order of the rows.
pub proof fn law_updates_keep_identity(
    rows: Seq<HypothesisView>,
    id: i64,
    state: HypothesisState,
    force: bool,
    elo: i64,
    matches_played: i64,
    i: int,
)
    requires
        0 <= i < rows.len(),
    ensures
        restated(rows, id, state, force).len() == rows.len(),
        rerated(rows, id, elo, matches_played).len() == rows.len(),
        restated(rows, id, state, force)[i].id == rows[i].id,
        restated(rows, id, state, force)[i].session_id == rows[i].session_id,
        restated(rows, id, state, force)[i].parent_ids == rows[i].parent_ids,
        rerated(rows, id, elo, matches_played)[i].id == rows[i].id,
        rerated(rows, id, elo, matches_played)[i].session_id == rows[i].session_id,
        rerated(rows, id, elo, matches_played)[i].parent_ids == rows[i].parent_ids,
        rows[i].id != id ==> restated(rows, id, state, force)[i] == rows[i],
        rows[i].id != id ==> rerated(rows, id, elo, matches_played)[i] == rows[i],
{
}

/// Of the hypotheses of a session no more stand than there are, no more are active
/// than stand, and no more mature than active.
pub proof fn law_mature_are_counted(rows: Seq<HypothesisView>, session: Seq<char>, threshold: i64)
    ensures
        wanted(rows, session, Wanted::Mature(threshold)).len() <= wanted(
            rows,
            session,
            Wanted::Active,
        ).len() <= wanted(rows, session, Wanted::Standing).len() <= wanted(
            rows,
            session,
            Wanted::All,
        ).len() <= rows.len(),
    decreases rows.len(),
{
    if rows.len() > 0 {
        law_mature_are_counted(rows.drop_last(), session, threshold);
    }
}

/// The way of a hypothesis: from draft over reviewed and in tournament to ranked, by
/// one step or several, never back, and from anywhere to pinned or rejected, where it
/// stays. A forced update goes anywhere.
pub proof fn law_way_of_a_hypothesis(from: HypothesisState, to: HypothesisState)
    ensures
        from.updated(to, true) == to,
        from.updated(from, false) == from,
        HypothesisState::Draft.updated(to, false) == to,
        HypothesisState::Reviewed.updated(HypothesisState::Draft, false)
            == HypothesisState::Reviewed,
        HypothesisState::Reviewed.updated(HypothesisState::InTournament, false)
            == HypothesisState::InTournament,
        HypothesisState::Reviewed.updated(HypothesisState::Ranked, false)
            == HypothesisState::Ranked,
        HypothesisState::InTournament.updated(HypothesisState::Draft, false)
            == HypothesisState::InTournament,
        HypothesisState::InTournament.updated(HypothesisState::Reviewed, false)
            == HypothesisState::InTournament,
        HypothesisState::InTournament.updated(HypothesisState::Ranked, false)
            == HypothesisState::Ranked,
        HypothesisState::Ranked.updated(HypothesisState::Draft, false) == HypothesisState::Ranked,
        HypothesisState::Ranked.updated(HypothesisState::Reviewed, false)
            == HypothesisState::Ranked,
        HypothesisState::Ranked.updated(HypothesisState::InTournament, false)
            == HypothesisState::Ranked,
        from != HypothesisState::Pinned && from != HypothesisState::Rejected && (to
            == HypothesisState::Pinned || to == HypothesisState::Rejected) ==> from.updated(
            to,
            false,
        ) == to,
        HypothesisState::Pinned.updated(to, false) == HypothesisState::Pinned,
        HypothesisState::Rejected.updated(to, false) == HypothesisState::Rejected,
{
}

/// An update of a state touches the hypothesis with the id: its state goes on its way,
/// and all else of it stays. An update of a rating sets the rating and the matches as
/// they are given, and leaves its state.
pub proof fn law_updates_touch_one_thing(
    rows: Seq<HypothesisView>,
    id: i64,
    state: HypothesisState,
    force: bool,
    elo: i64,
    matches_played: i64,
    i: int,
)
    requires
        0 <= i < rows.len(),
        rows[i].id == id,
    ensures
        ({
            let after = restated(rows, id, state, force)[i];
            &&& force ==> after.state == state
            &&& after.state == rows[i].state || after.state == state
            &&& after.state == rows[i].state.updated(state, force)
            &&& after.id == id
            &&& after.session_id == rows[i].session_id
            &&& after.elo == rows[i].elo
            &&& after.parent_ids == rows[i].parent_ids
            &&& after.semantic_id == rows[i].semantic_id
            &&& after.matches_played == rows[i].matches_played
            &&& after.created_at == rows[i].created_at
        }),
        ({
            let after = rerated(rows, id, elo, matches_played)[i];
            &&& after.elo == elo
            &&& after.matches_played == matches_played
            &&& after.id == id
            &&& after.session_id == rows[i].session_id
            &&& after.state == rows[i].state
            &&& after.parent_ids == rows[i].parent_ids
            &&& after.semantic_id == rows[i].semantic_id
            &&& after.created_at == rows[i].created_at
        }),
{
}

/// Whether a hypothesis is meant by a choice, told by its session, state and matches.
pub open spec fn meant(h: HypothesisView, session: Seq<char>, which: Wanted) -> bool {
    let playing = h.state == HypothesisState::InTournament || h.state == HypothesisState::Ranked;
    let in_play = playing || h.state == HypothesisState::Draft || h.state
        == HypothesisState::Reviewed;
    h.session_id == session && match which {
        Wanted::All => true,
        Wanted::Standing => in_play || h.state == HypothesisState::Pinned,
        Wanted::Active => in_play,
        Wanted::Mature(n) => in_play && n <= h.matches_played,
        Wanted::Unplayed(n) => playing && h.matches_played < n,
    }
}

/// Hypotheses are chosen one by one, in the order of the table: those of two parts of
/// it are those of the first and behind them those of the second, and of one row it
/// is itself or nothing.
pub proof fn law_rows_are_chosen_one_by_one(
    a: Seq<HypothesisView>,
    b: Seq<HypothesisView>,
    h: HypothesisView,
    session: Seq<char>,
    which: Wanted,
)
    ensures
        wanted(a + b, session, which) == wanted(a, session, which) + wanted(b, session, which),
        wanted(Seq::empty(), session, which) == Seq::<HypothesisView>::empty(),
        wanted(seq![h], session, which) == (if meant(h, session, which) {
            seq![h]
        } else {
            Seq::empty()
        }),
    decreases b.len(),
{
    reveal_with_fuel(wanted, 2);
    assert(seq![h].drop_last() =~= Seq::<HypothesisView>::empty());
    assert(Seq::<HypothesisView>::empty().push(h) =~= seq![h]);
    if b.len() == 0 {
        assert(a + b =~= a);
        assert(wanted(a, session, which) + wanted(b, session, which) =~= wanted(
            a,
            session,
            which,
        ));
    } else {
        law_rows_are_chosen_one_by_one(a, b.drop_last(), h, session, which);
        assert((a + b).drop_last() =~= a + b.drop_last());
        assert(wanted(a + b, session, which) =~= wanted(a, session, which) + wanted(
            b,
            session,
            which,
        ));
    }
}

/// A hypothesis is chosen exactly where it is in the table and is meant.
pub proof fn law_chosen_means_meant(
    rows: Seq<HypothesisView>,
    h: HypothesisView,
    session: Seq<char>,
    which: Wanted,
)
    ensures
        wanted(rows, session, which).contains(h) <==> rows.contains(h) && meant(h, session, which),
    decreases rows.len(),
{
    if rows.len() > 0 {
        let a = rows.drop_last();
        let b = seq![rows.last()];
        assert(a + b =~= rows);
        law_chosen_means_meant(a, h, session, which);
        law_rows_are_chosen_one_by_one(a, b, rows.last(), session, which);
        let all = wanted(rows, session, which);
        let left = wanted(a, session, which);
        if left.contains(h) {
            let i = choose|i: int| 0 <= i < left.len() && left[i] == h;
            assert(all[i] == h);
        }
        if a.contains(h) {
            let i = choose|i: int| 0 <= i < a.len() && a[i] == h;
            assert(rows[i] == h);
        }
        if rows.contains(h) {
            let i = choose|i: int| 0 <= i < rows.len() && rows[i] == h;
            if i < a.len() {
                assert(a[i] == h);
            } else if meant(h, session, which) {
                assert(all.last() == h);
            }
        }
        if all.contains(h) {
            let i = choose|i: int| 0 <= i < all.len() && all[i] == h;
            if i < left.len() {
                assert(left[i] == h);
            } else {
                assert(rows.last() == h);
            }
        }
    }
}

proof fn lemma_same_members(a: Seq<HypothesisView>, b: Seq<HypothesisView>, h: HypothesisView)
    requires
        a.to_multiset() == b.to_multiset(),
    ensures
        a.len() == b.len(),
        a.contains(h) == b.contains(h),
{
    a.to_multiset_ensures();
    b.to_multiset_ensures();
    assert(a.contains(h) <==> a.to_multiset().count(h) > 0);
    assert(b.contains(h) <==> b.to_multiset().count(h) > 0);
}

/// The best of a session are hypotheses of that session in play, as many as are asked
/// for as far as there are so many, the highest rating first; and none that is left
/// out is rated higher than any of them.
pub proof fn law_the_best_are_listed(
    rows: Seq<HypothesisView>,
    session: Seq<char>,
    n: nat,
    out: Seq<HypothesisView>,
)
    requires
        lists_first(wanted(rows, session, Wanted::Active), Ordered::ByRating, n, out),
    ensures
        out.len() == (if n < wanted(rows, session, Wanted::Active).len() {
            n
        } else {
            wanted(rows, session, Wanted::Active).len()
        }),
        forall|i: int, j: int| 0 <= i < j < out.len() ==> out[i].elo >= out[j].elo,
        forall|i: int|
            0 <= i < out.len() ==> rows.contains(#[trigger] out[i]) && meant(
                out[i],
                session,
                Wanted::Active,
            ),
        forall|h: HypothesisView|
            #![trigger rows.contains(h)]
            rows.contains(h) && meant(h, session, Wanted::Active) && !out.contains(h)
                ==> forall|i: int| 0 <= i < out.len() ==> (#[trigger] out[i]).elo >= h.elo,
{
    let from = wanted(rows, session, Wanted::Active);
    let all = choose|all: Seq<HypothesisView>| #[trigger]
        lists_in_order(from, Ordered::ByRating, all) && out == (if n < all.len() {
            all.take(n as int)
        } else {
            all
        });
    lemma_same_members(all, from, arbitrary());
    assert forall|i: int, j: int| 0 <= i < j < out.len() implies out[i].elo >= out[j].elo by {
        assert(!listed_before(all[j], all[i], Ordered::ByRating));
    }
    assert forall|i: int| 0 <= i < out.len() implies rows.contains(#[trigger] out[i]) && meant(
        out[i],
        session,
        Wanted::Active,
    ) by {
        assert(all[i] == out[i]);
        assert(all.contains(out[i]));
        lemma_same_members(all, from, out[i]);
        law_chosen_means_meant(rows, out[i], session, Wanted::Active);
    }
    assert forall|h: HypothesisView| #[trigger]
        rows.contains(h) && meant(h, session, Wanted::Active) && !out.contains(h) implies forall|
        i: int,
    |
        0 <= i < out.len() ==> (#[trigger] out[i]).elo >= h.elo by {
        law_chosen_means_meant(rows, h, session, Wanted::Active);
        lemma_same_members(all, from, h);
        let k = choose|k: int| 0 <= k < all.len() && all[k] == h;
        assert forall|i: int| 0 <= i < out.len() implies (#[trigger] out[i]).elo >= h.elo by {
            assert(out[i] == all[i]);
            if k < out.len() {
                assert(out[k] == h);
                assert(out.contains(h));
            }
            assert(!listed_before(all[k], all[i], Ordered::ByRating));
        }
    }
}

/// The hypotheses that need matches are those of the session that play and have had
/// fewer than the threshold, as many as are asked for; those with the fewest matches
/// come first and of those the highest rated, and none that is left out should have
/// come before any of them.
pub proof fn law_those_short_of_matches_are_listed(
    rows: Seq<HypothesisView>,
    session: Seq<char>,
    threshold: i64,
    n: nat,
    out: Seq<HypothesisView>,
)
    requires
        lists_first(
            wanted(rows, session, Wanted::Unplayed(threshold)),
            Ordered::ByMatches,
            n,
            out,
        ),
    ensures
        out.len() == (if n < wanted(rows, session, Wanted::Unplayed(threshold)).len() {
            n
        } else {
            wanted(rows, session, Wanted::Unplayed(threshold)).len()
        }),
        forall|i: int, j: int|
            0 <= i < j < out.len() ==> out[i].matches_played < out[j].matches_played || (
            out[i].matches_played == out[j].matches_played && out[i].elo >= out[j].elo),
        forall|i: int|
            0 <= i < out.len() ==> rows.contains(#[trigger] out[i]) && meant(
                out[i],
                session,
                Wanted::Unplayed(threshold),
            ),
        forall|h: HypothesisView|
            #![trigger rows.contains(h)]
            rows.contains(h) && meant(h, session, Wanted::Unplayed(threshold)) && !out.contains(h)
                ==> forall|i: int|
                0 <= i < out.len() ==> (#[trigger] out[i]).matches_played < h.matches_played || (
                out[i].matches_played == h.matches_played && out[i].elo >= h.elo),
{
    let which = Wanted::Unplayed(threshold);
    let from = wanted(rows, session, which);
    let all = choose|all: Seq<HypothesisView>| #[trigger]
        lists_in_order(from, Ordered::ByMatches, all) && out == (if n < all.len() {
            all.take(n as int)
        } else {
            all
        });
    lemma_same_members(all, from, arbitrary());
    assert forall|i: int, j: int| 0 <= i < j < out.len() implies out[i].matches_played
        < out[j].matches_played || (out[i].matches_played == out[j].matches_played && out[i].elo
        >= out[j].elo) by {
        assert(!listed_before(all[j], all[i], Ordered::ByMatches));
    }
    assert forall|i: int| 0 <= i < out.len() implies rows.contains(#[trigger] out[i]) && meant(
        out[i],
        session,
        which,
    ) by {
        assert(all[i] == out[i]);
        assert(all.contains(out[i]));
        lemma_same_members(all, from, out[i]);
        law_chosen_means_meant(rows, out[i], session, which);
    }
    assert forall|h: HypothesisView| #[trigger]
        rows.contains(h) && meant(h, session, which) && !out.contains(h) implies forall|i: int|
        0 <= i < out.len() ==> (#[trigger] out[i]).matches_played < h.matches_played || (
        out[i].matches_played == h.matches_played && out[i].elo >= h.elo) by {
        law_chosen_means_meant(rows, h, session, which);
        lemma_same_members(all, from, h);
        let k = choose|k: int| 0 <= k < all.len() && all[k] == h;
        assert forall|i: int| 0 <= i < out.len() implies (#[trigger] out[i]).matches_played
            < h.matches_played || (out[i].matches_played == h.matches_played && out[i].elo
            >= h.elo) by {
            assert(out[i] == all[i]);
            if k < out.len() {
                assert(out[k] == h);
                assert(out.contains(h));
            }
            assert(!listed_before(all[k], all[i], Ordered::ByMatches));
        }
    }
}

/// All hypotheses of a session are listed, and nothing else, the highest rating
/// first.
pub proof fn law_a_session_is_listed_whole(
    rows: Seq<HypothesisView>,
    session: Seq<char>,
    out: Seq<HypothesisView>,
    h: HypothesisView,
)
    requires
        lists_in_order(wanted(rows, session, Wanted::All), Ordered::ByRating, out),
    ensures
        out.contains(h) <==> rows.contains(h) && h.session_id == session,
        out.to_multiset() == wanted(rows, session, Wanted::All).to_multiset(),
        forall|i: int, j: int| 0 <= i < j < out.len() ==> out[i].elo >= out[j].elo,
{
    lemma_same_members(out, wanted(rows, session, Wanted::All), h);
    law_chosen_means_meant(rows, h, session, Wanted::All);
    assert forall|i: int, j: int| 0 <= i < j < out.len() implies out[i].elo >= out[j].elo by {
        assert(!listed_before(out[j], out[i], Ordered::ByRating));
    }
}

/// A new hypothesis is a draft with no matches, as it was asked for, behind all that
/// are there, under the next id; the others stay.
pub proof fn law_new_hypotheses_are_drafts(
    before: RepoView,
    session: Seq<char>,
    semantic_id: Option<i64>,
    parent_ids: Seq<i64>,
    elo: i64,
    at: Seq<char>,
    after: RepoView,
    r: Option<i64>,
)
    requires
        inserts(before, session, semantic_id, parent_ids, elo, at, after, r),
        before.last_id < i64::MAX,
    ensures
        r is Some,
        r->0 == before.last_id + 1,
        after.last_id == r->0,
        after.rows.len() == before.rows.len() + 1,
        forall|i: int| 0 <= i < before.rows.len() ==> #[trigger] after.rows[i] == before.rows[i],
        ({
            let new = after.rows.last();
            &&& new.id == r->0
            &&& new.session_id == session
            &&& new.state == HypothesisState::Draft
            &&& new.elo == elo
            &&& new.parent_ids == parent_ids
            &&& new.semantic_id == semantic_id
            &&& new.matches_played == 0
            &&& new.created_at == at
        }),
{
}

/// A hypothesis is looked up by its id: what is found has it, and nothing is found
/// only where no row has it.
pub proof fn law_lookup_goes_by_id(rows: Seq<HypothesisView>, id: i64, from: int)
    requires
        0 <= from,
    ensures
        match row_from(rows, id, from) {
            Some(h) => h.id == id && rows.contains(h),
            None => forall|i: int| from <= i < rows.len() ==> (#[trigger] rows[i]).id != id,
        },
    decreases rows.len() - from,
{
    if from < rows.len() && rows[from].id != id {
        law_lookup_goes_by_id(rows, id, from + 1);
    }
}

} // verus!
