//! Subnets, and the search for a better membership.

use crate::node::{
    copy_nodes, features_of, has_id, ids_of, is_listed, position_of, views, with_node,
    without_node, Node, NodeView, PrincipalId,
};
use crate::rules::{
    check_nodes, check_scored_nodes, is_valid, violation, MinNakamotoCoefficients, RuleViolation,
};
use crate::score::NakamotoScore;
use crate::text::{append, append_decimal, decimal};
use vstd::prelude::*;

verus! {

/// Why a change of membership could not be worked out.
#[derive(Clone, Copy, Debug, PartialEq, Eq, Structural)]
pub enum NetworkError {
    /// `needed` nodes were to be added, and only `have` could be.
    InsufficientCandidates { needed: usize, have: usize },
    /// The node `id` was to be removed and is pinned.
    PinnedAndRemoved { id: PrincipalId },
    /// The node `id` is not where it was expected: a node to be removed is
    /// no member, or a node to be added is a member already or stands twice
    /// among the candidates.
    UnknownNode { id: PrincipalId },
}

impl NetworkError {
    /// The message for a reader.
    pub open spec fn message(self) -> Seq<char> {
        match self {
            NetworkError::InsufficientCandidates { needed, have } => "Not enough candidates: needed "@
                + decimal(needed as nat) + ", have "@ + decimal(have as nat),
            NetworkError::PinnedAndRemoved { id } => "Node "@ + decimal(id.0 as nat)
                + " is pinned and was to be removed"@,
            NetworkError::UnknownNode { id } => "Unknown node "@ + decimal(id.0 as nat),
        }
    }

    /// The message for a reader.
    pub fn to_string(&self) -> (text: String)
        ensures
            text@ == self.message(),
    {
        match self {
            NetworkError::InsufficientCandidates { needed, have } => {
                let mut text = "Not enough candidates: needed ".to_owned();
                append_decimal(&mut text, *needed as u128);
                append(&mut text, ", have ");
                append_decimal(&mut text, *have as u128);
                text
            },
            NetworkError::PinnedAndRemoved { id } => {
                let mut text = "Node ".to_owned();
                append_decimal(&mut text, id.0 as u128);
                append(&mut text, " is pinned and was to be removed");
                text
            },
            NetworkError::UnknownNode { id } => {
                let mut text = "Unknown node ".to_owned();
                append_decimal(&mut text, id.0 as u128);
                text
            },
        }
    }
}

/// A committee of nodes. The order of the nodes is kept for the reader; the
/// score and the rules do not depend on it.
#[derive(Debug)]
pub struct Subnet {
    pub id: PrincipalId,
    pub nodes: Vec<Node>,
}

/// The mathematical content of a subnet.
pub struct SubnetView {
    pub id: PrincipalId,
    pub nodes: Seq<NodeView>,
}

impl View for Subnet {
    type V = SubnetView;

    open spec fn view(&self) -> SubnetView {
        SubnetView { id: self.id, nodes: views(self.nodes@) }
    }
}

impl Clone for Subnet {
    fn clone(&self) -> (copy: Self)
        ensures
            copy@ == self@,
    {
        Subnet { id: self.id, nodes: copy_nodes(&self.nodes) }
    }
}

/// The score of `members` with `extra` as one more member.
pub open spec fn score_with(members: Seq<NodeView>, extra: NodeView) -> NakamotoScore {
    NakamotoScore::of(features_of(members.push(extra)))
}

/// Whether candidate `i` is to be preferred to candidate `j`, the best
/// before it: its score is strictly preferred, or neither score is and
/// DFINITY owns `j` and not `i`.
pub open spec fn better_addition(members: Seq<NodeView>, pool: Seq<NodeView>, i: int, j: int) -> bool {
    let new = score_with(members, pool[i]);
    let old = score_with(members, pool[j]);
    new.beats(old) || (new.ties(old) && !pool[i].dfinity_owned && pool[j].dfinity_owned)
}

/// The place of the best among the first `upto` candidates: each candidate
/// in turn is held against the best before it and takes its place where it
/// is to be preferred, so that of equals the earliest stays.
pub open spec fn best_addition(members: Seq<NodeView>, pool: Seq<NodeView>, upto: int) -> Option<int>
    decreases upto,
{
    if upto <= 0 {
        None
    } else {
        match best_addition(members, pool, upto - 1) {
            None => Some(upto - 1),
            Some(j) => if better_addition(members, pool, upto - 1, j) {
                Some(upto - 1)
            } else {
                Some(j)
            },
        }
    }
}

/// The members after `k` times the best candidate has joined them and left
/// the pool, as far as the pool lasts.
pub open spec fn extended(members: Seq<NodeView>, pool: Seq<NodeView>, k: nat) -> Seq<NodeView>
    decreases k,
{
    if k == 0 || pool.len() == 0 {
        members
    } else {
        let i = best_addition(members, pool, pool.len() as int).unwrap();
        extended(members.push(pool[i]), pool.remove(i), (k - 1) as nat)
    }
}

/// Whether candidate `i` has the identity of a member or of a candidate
/// before it.
pub open spec fn clashes(members: Seq<NodeView>, pool: Seq<NodeView>, i: int) -> bool {
    has_id(members, pool[i].id) || has_id(pool.take(i), pool[i].id)
}

/// The place of the first candidate from `from` on that clashes.
pub open spec fn first_clash(members: Seq<NodeView>, pool: Seq<NodeView>, from: int) -> Option<int>
    decreases pool.len() - from,
{
    if from < 0 || from >= pool.len() {
        None
    } else if clashes(members, pool, from) {
        Some(from)
    } else {
        first_clash(members, pool, from + 1)
    }
}

/// Where the best of the first candidates lies.
pub proof fn lemma_best_addition(members: Seq<NodeView>, pool: Seq<NodeView>, upto: int)
    requires
        0 <= upto <= pool.len(),
    ensures
        upto == 0 ==> best_addition(members, pool, upto).is_none(),
        upto > 0 ==> best_addition(members, pool, upto).is_some() && 0 <= best_addition(
            members,
            pool,
            upto,
        ).unwrap() < upto,
    decreases upto,
{
    if upto > 0 {
        lemma_best_addition(members, pool, upto - 1);
    }
}

/// No candidate after the best is to be preferred to it: none of them scores
/// strictly better, and where DFINITY owns the best, none that DFINITY does
/// not own scores alike.
pub proof fn lemma_best_addition_stands(members: Seq<NodeView>, pool: Seq<NodeView>, upto: int)
    requires
        0 <= upto <= pool.len(),
    ensures
        best_addition(members, pool, upto).is_some() ==> forall|i: int|
            best_addition(members, pool, upto).unwrap() < i < upto ==> !#[trigger] better_addition(
                members,
                pool,
                i,
                best_addition(members, pool, upto).unwrap(),
            ),
    decreases upto,
{
    if upto > 0 {
        lemma_best_addition_stands(members, pool, upto - 1);
        lemma_best_addition(members, pool, upto - 1);
    }
}

/// Extending keeps the members in their places and adds candidates behind
/// them: as many as asked for, as far as the pool lasts.
pub proof fn lemma_extended(members: Seq<NodeView>, pool: Seq<NodeView>, k: nat)
    ensures
        extended(members, pool, k).len() == members.len() + if k <= pool.len() {
            k
        } else {
            pool.len()
        },
        extended(members, pool, k).take(members.len() as int) == members,
        forall|j: int|
            members.len() <= j < extended(members, pool, k).len() ==> pool.contains(
                #[trigger] extended(members, pool, k)[j],
            ),
    decreases k,
{
    if k == 0 || pool.len() == 0 {
        assert(members.take(members.len() as int) =~= members);
    } else {
        lemma_best_addition(members, pool, pool.len() as int);
        let i = best_addition(members, pool, pool.len() as int).unwrap();
        let more = members.push(pool[i]);
        let rest = pool.remove(i);
        lemma_extended(more, rest, (k - 1) as nat);
        let end = extended(members, pool, k);
        assert(end.take(members.len() as int) =~= end.take(more.len() as int).take(
            members.len() as int,
        ));
        assert(more.take(members.len() as int) =~= members);
        assert forall|j: int| members.len() <= j < end.len() implies pool.contains(
            #[trigger] end[j],
        ) by {
            if j == members.len() {
                assert(end.take(more.len() as int)[j] == more[j]);
                assert(pool[i] == end[j]);
            } else {
                assert(rest.contains(end[j]));
                let at = choose|at: int| 0 <= at < rest.len() && rest[at] == end[j];
                if at < i {
                    assert(pool[at] == end[j]);
                } else {
                    assert(pool[at + 1] == end[j]);
                }
            }
        }
    }
}

/// The place of the first candidate that has the identity of a member or of
/// a candidate before it.
pub fn find_clash(members: &Vec<Node>, pool: &Vec<Node>) -> (found: Option<usize>)
    ensures
        match found {
            Some(at) => first_clash(views(members@), views(pool@), 0) == Some(at as int) && at
                < pool@.len(),
            None => first_clash(views(members@), views(pool@), 0).is_none(),
        },
{
    let ghost m = views(members@);
    let ghost p = views(pool@);
    let mut i: usize = 0;
    while i < pool.len()
        invariant
            i <= pool.len(),
            m == views(members@),
            p == views(pool@),
            first_clash(m, p, 0) == first_clash(m, p, i as int),
        decreases pool.len() - i,
    {
        let id = pool[i].id;
        let among_members = position_of(members, id);
        if among_members.is_some() {
            assert(m[among_members.unwrap() as int].id == id);
            return Some(i);
        }
        let among_pool = position_of(pool, id);
        proof {
            assert(p[i as int].id == id);
            if has_id(p.take(i as int), id) {
                let j = choose|j: int| 0 <= j < p.take(i as int).len() && #[trigger] p.take(
                    i as int,
                )[j].id == id;
                assert(pool@[j].id == id);
            }
        }
        match among_pool {
            Some(at) => {
                if at < i {
                    assert(p.take(i as int)[at as int].id == id);
                    return Some(i);
                }
            },
            None => {},
        }
        i += 1;
    }
    None
}

/// The place of the best of the candidates to join `members`.
pub fn pick_addition(members: &Vec<Node>, pool: &Vec<Node>) -> (best: Option<usize>)
    ensures
        match best {
            Some(at) => best_addition(views(members@), views(pool@), pool@.len() as int) == Some(
                at as int,
            ) && at < pool@.len(),
            None => pool@.len() == 0,
        },
{
    let ghost m = views(members@);
    let ghost p = views(pool@);
    if pool.len() == 0 {
        return None;
    }
    let mut best: usize = 0;
    let first = with_node(members, &pool[0]);
    let mut best_score = NakamotoScore::new_from_nodes(first.as_slice());
    let mut i: usize = 1;
    assert(best_addition(m, p, 0).is_none());
    while i < pool.len()
        invariant
            1 <= i <= pool.len(),
            m == views(members@),
            p == views(pool@),
            best < i,
            best_addition(m, p, i as int) == Some(best as int),
            best_score == score_with(m, p[best as int]),
        decreases pool.len() - i,
    {
        let candidate = with_node(members, &pool[i]);
        let score = NakamotoScore::new_from_nodes(candidate.as_slice());
        assert(score == score_with(m, p[i as int]));
        let better = score.is_better_than(&best_score) || (score.is_tied_with(&best_score)
            && !pool[i].dfinity_owned && pool[best].dfinity_owned);
        assert(better == better_addition(m, p, i as int, best as int));
        if better {
            best = i;
            best_score = score;
        }
        i += 1;
    }
    Some(best)
}

/// `members` after `k` times the best candidate has joined them and left the
/// pool.
pub(crate) fn extend_nodes(members: &Vec<Node>, pool: &Vec<Node>, k: usize) -> (more: Vec<Node>)
    requires
        k <= pool@.len(),
    ensures
        views(more@) == extended(views(members@), views(pool@), k as nat),
{
    let mut more = copy_nodes(members);
    let mut rest = copy_nodes(pool);
    let mut added: usize = 0;
    assert(views(rest@).len() == rest@.len() && views(pool@).len() == pool@.len());
    while added < k
        invariant
            added <= k <= pool@.len(),
            rest@.len() == pool@.len() - added,
            extended(views(members@), views(pool@), k as nat) == extended(
                views(more@),
                views(rest@),
                (k - added) as nat,
            ),
        decreases k - added,
    {
        let ghost m = views(more@);
        let ghost p = views(rest@);
        let at = pick_addition(&more, &rest).unwrap();
        let chosen = rest.remove(at);
        assert(views(rest@) =~= p.remove(at as int));
        more.push(chosen);
        assert(views(more@) =~= m.push(p[at as int]));
        added += 1;
    }
    more
}

impl Subnet {
    /// The Nakamoto score of the nodes of the subnet.
    pub fn nakamoto_score(&self) -> (score: NakamotoScore)
        ensures
            score == NakamotoScore::of(features_of(self@.nodes)),
    {
        NakamotoScore::new_from_nodes(self.nodes.as_slice())
    }

    /// The first rule that the subnet breaks, if it breaks one.
    pub fn check_business_rules(&self) -> (checked: Result<(), RuleViolation>)
        ensures
            match checked {
                Ok(_) => violation(self@.nodes, None).is_none(),
                Err(broken) => violation(self@.nodes, None) == Some(broken),
            },
    {
        check_nodes(&self.nodes, &None)
    }

    /// The first rule that the subnet breaks, if it breaks one, among them
    /// the least coefficients that the caller asks for.
    pub fn check_business_rules_with(&self, wanted: &Option<MinNakamotoCoefficients>) -> (checked:
        Result<(), RuleViolation>)
        ensures
            match checked {
                Ok(_) => violation(self@.nodes, *wanted).is_none(),
                Err(broken) => violation(self@.nodes, *wanted) == Some(broken),
            },
    {
        check_nodes(&self.nodes, wanted)
    }

    /// The subnet with `num_nodes_to_add` more nodes, taken from
    /// `available_nodes` one after the other: each time the candidate with
    /// which the subnet scores best; of candidates that score alike one that
    /// DFINITY does not own, and of those the earliest. The nodes of the
    /// subnet keep their places, and the new ones follow in the order in
    /// which they were taken.
    ///
    /// Fails where there are fewer candidates than nodes to add, and where a
    /// candidate has the identity of a member or of an earlier candidate.
    pub fn new_extended_subnet(&self, num_nodes_to_add: usize, available_nodes: &Vec<Node>) -> (extension:
        Result<Subnet, NetworkError>)
        ensures
            match extension {
                Ok(subnet) => {
                    &&& num_nodes_to_add <= available_nodes@.len()
                    &&& first_clash(self@.nodes, views(available_nodes@), 0).is_none()
                    &&& subnet@.id == self@.id
                    &&& subnet@.nodes == extended(
                        self@.nodes,
                        views(available_nodes@),
                        num_nodes_to_add as nat,
                    )
                    &&& subnet@.nodes.len() == self@.nodes.len() + num_nodes_to_add
                    &&& subnet@.nodes.take(self@.nodes.len() as int) == self@.nodes
                },
                Err(NetworkError::InsufficientCandidates { needed, have }) => {
                    &&& available_nodes@.len() < num_nodes_to_add
                    &&& needed == num_nodes_to_add
                    &&& have == available_nodes@.len()
                },
                Err(NetworkError::UnknownNode { id }) => {
                    &&& num_nodes_to_add <= available_nodes@.len()
                    &&& first_clash(self@.nodes, views(available_nodes@), 0).is_some()
                    &&& id == views(available_nodes@)[first_clash(
                        self@.nodes,
                        views(available_nodes@),
                        0,
                    ).unwrap()].id
                },
                Err(NetworkError::PinnedAndRemoved { .. }) => false,
            },
    {
        if available_nodes.len() < num_nodes_to_add {
            return Err(
                NetworkError::InsufficientCandidates {
                    needed: num_nodes_to_add,
                    have: available_nodes.len(),
                },
            );
        }
        match find_clash(&self.nodes, available_nodes) {
            Some(at) => {
                return Err(NetworkError::UnknownNode { id: available_nodes[at].id });
            },
            None => {},
        }
        let nodes = extend_nodes(&self.nodes, available_nodes, num_nodes_to_add);
        proof {
            lemma_extended(self@.nodes, views(available_nodes@), num_nodes_to_add as nat);
        }
        Ok(Subnet { id: self.id, nodes })
    }
}

/// Why the membership of a subnet was changed, or was not.
#[derive(Clone, Copy, Debug, PartialEq, Eq, Structural)]
pub enum ChangeReason {
    /// Nodes were replaced and the subnet scores better for it.
    Optimized,
    /// Nodes that were to leave have left, and others have taken their
    /// places.
    Replaced,
    /// Nothing was changed: no exchange of nodes made the subnet score
    /// better.
    Unchanged,
}

/// A change of the membership of a subnet: the subnet before and after, the
/// nodes that left and those that came, why, and the first rule that the
/// subnet breaks afterwards, if it breaks one.
#[derive(Debug)]
pub struct SubnetChange {
    pub before: Subnet,
    pub after: Subnet,
    pub removed: Vec<PrincipalId>,
    pub added: Vec<PrincipalId>,
    pub reason: ChangeReason,
    pub violation: Option<RuleViolation>,
}

/// The mathematical content of a change.
pub struct SubnetChangeView {
    pub before: SubnetView,
    pub after: SubnetView,
    pub removed: Seq<PrincipalId>,
    pub added: Seq<PrincipalId>,
    pub reason: ChangeReason,
    pub violation: Option<RuleViolation>,
}

impl View for SubnetChange {
    type V = SubnetChangeView;

    open spec fn view(&self) -> SubnetChangeView {
        SubnetChangeView {
            before: self.before@,
            after: self.after@,
            removed: self.removed@,
            added: self.added@,
            reason: self.reason,
            violation: self.violation,
        }
    }
}

impl SubnetChange {
    /// The subnet before the change.
    pub fn before(&self) -> (subnet: Subnet)
        ensures
            subnet@ == self@.before,
    {
        self.before.clone()
    }

    /// The subnet after the change.
    pub fn after(&self) -> (subnet: Subnet)
        ensures
            subnet@ == self@.after,
    {
        self.after.clone()
    }
}

/// What the caller allows a search to do.
pub struct Limits {
    /// The identities of the members that must stay.
    pub pins: Seq<PrincipalId>,
    /// The least coefficients that the caller asks for.
    pub wanted: Option<MinNakamotoCoefficients>,
}

/// Where a search stands.
pub struct Search {
    /// The members, those that came in during the search last.
    pub members: Seq<NodeView>,
    /// The candidates that are left.
    pub pool: Seq<NodeView>,
    /// How many members came in during the search.
    pub fresh: nat,
}

/// The members after the one at `r` has left and `extra` has come in.
pub open spec fn swapped(members: Seq<NodeView>, r: int, extra: NodeView) -> Seq<NodeView> {
    members.remove(r).push(extra)
}

/// Whether the member at `r` may leave: it was a member before the search
/// and is not pinned.
pub open spec fn removable(state: Search, limits: Limits, r: int) -> bool {
    0 <= r < state.members.len() - state.fresh && !limits.pins.contains(state.members[r].id)
}

/// Whether one exchange is to be preferred to another: it meets the rules
/// and the other does not; or both or neither do and its score is strictly
/// preferred; or neither score is and DFINITY owns the node that comes in
/// with the other and not the one that comes in with it.
pub open spec fn prefer(
    new_valid: bool,
    new_score: NakamotoScore,
    new_owned: bool,
    old_valid: bool,
    old_score: NakamotoScore,
    old_owned: bool,
) -> bool {
    if new_valid != old_valid {
        new_valid
    } else {
        new_score.beats(old_score) || (new_score.ties(old_score) && !new_owned && old_owned)
    }
}

/// Whether the exchange of the member at `r` for the candidate at `a` is to
/// be preferred to that of `r0` for `a0`.
pub open spec fn better_swap(state: Search, limits: Limits, r: int, a: int, r0: int, a0: int) -> bool {
    let new = swapped(state.members, r, state.pool[a]);
    let old = swapped(state.members, r0, state.pool[a0]);
    prefer(
        is_valid(new, limits.wanted),
        NakamotoScore::of(features_of(new)),
        state.pool[a].dfinity_owned,
        is_valid(old, limits.wanted),
        NakamotoScore::of(features_of(old)),
        state.pool[a0].dfinity_owned,
    )
}

/// The best exchange once the member at `r` has been held against the first
/// `upto` candidates, where `best` was the best before: each candidate takes
/// the place of the best where it is to be preferred.
pub open spec fn scan_additions(
    state: Search,
    limits: Limits,
    r: int,
    upto: int,
    best: Option<(int, int)>,
) -> Option<(int, int)>
    decreases upto,
{
    if upto <= 0 {
        best
    } else {
        let before = scan_additions(state, limits, r, upto - 1, best);
        match before {
            None => Some((r, upto - 1)),
            Some((r0, a0)) => if better_swap(state, limits, r, upto - 1, r0, a0) {
                Some((r, upto - 1))
            } else {
                before
            },
        }
    }
}

/// The best exchange among those of the first `upto` members: the members
/// that may leave are held, one after the other, against all candidates.
pub open spec fn scan_removals(state: Search, limits: Limits, upto: int) -> Option<(int, int)>
    decreases upto,
{
    if upto <= 0 {
        None
    } else {
        let before = scan_removals(state, limits, upto - 1);
        if !removable(state, limits, upto - 1) {
            before
        } else {
            scan_additions(state, limits, upto - 1, state.pool.len() as int, before)
        }
    }
}

/// The best exchange of one member for one candidate, if there is any.
pub open spec fn best_swap(state: Search, limits: Limits) -> Option<(int, int)> {
    scan_removals(state, limits, state.members.len() - state.fresh)
}

/// The search after the member at `r` has left and the candidate at `a` has
/// come in.
pub open spec fn after_swap(state: Search, r: int, a: int) -> Search {
    Search {
        members: swapped(state.members, r, state.pool[a]),
        pool: state.pool.remove(a),
        fresh: state.fresh + 1,
    }
}

/// The search after at most `steps` times the best exchange has been made;
/// it ends early where no exchange is left.
pub open spec fn searched(state: Search, limits: Limits, steps: nat) -> Search
    decreases steps,
{
    if steps == 0 {
        state
    } else {
        match best_swap(state, limits) {
            None => state,
            Some((r, a)) => searched(after_swap(state, r, a), limits, (steps - 1) as nat),
        }
    }
}

/// The identities of the members that leave in at most `steps` exchanges,
/// in the order of leaving.
pub open spec fn removed_by(state: Search, limits: Limits, steps: nat) -> Seq<PrincipalId>
    decreases steps,
{
    if steps == 0 {
        Seq::empty()
    } else {
        match best_swap(state, limits) {
            None => Seq::empty(),
            Some((r, a)) => seq![state.members[r].id] + removed_by(
                after_swap(state, r, a),
                limits,
                (steps - 1) as nat,
            ),
        }
    }
}

/// The search before its first step.
pub open spec fn search_from(members: Seq<NodeView>, pool: Seq<NodeView>) -> Search {
    Search { members, pool, fresh: 0 }
}

/// The identities of the members that came in during the search.
pub open spec fn added_ids(state: Search) -> Seq<PrincipalId> {
    ids_of(state.members.skip(state.members.len() - state.fresh))
}

/// What an optimization gives: the search is run for at most `steps`
/// exchanges; where the subnet then scores strictly better than before, the
/// change is what the search has done, and otherwise nothing is changed.
pub open spec fn optimized(before: SubnetView, pool: Seq<NodeView>, limits: Limits, steps: nat) -> SubnetChangeView {
    let end = searched(search_from(before.nodes, pool), limits, steps);
    if NakamotoScore::of(features_of(end.members)).beats(NakamotoScore::of(features_of(before.nodes))) {
        SubnetChangeView {
            before,
            after: SubnetView { id: before.id, nodes: end.members },
            removed: removed_by(search_from(before.nodes, pool), limits, steps),
            added: added_ids(end),
            reason: ChangeReason::Optimized,
            violation: violation(end.members, limits.wanted),
        }
    } else {
        SubnetChangeView {
            before,
            after: before,
            removed: Seq::empty(),
            added: Seq::empty(),
            reason: ChangeReason::Unchanged,
            violation: violation(before.nodes, limits.wanted),
        }
    }
}

/// The exchange that leads a scan, with what it was judged by.
pub struct Leader {
    pub removal: usize,
    pub addition: usize,
    pub score: NakamotoScore,
    pub valid: bool,
    pub dfinity_owned: bool,
}

/// Whether `leader` is the exchange `best` of the search, with its score,
/// its validity and the owner of the node that comes in.
pub open spec fn leads(leader: Option<Leader>, best: Option<(int, int)>, state: Search, limits: Limits) -> bool {
    match leader {
        None => best.is_none(),
        Some(l) => {
            let nodes = swapped(state.members, l.removal as int, state.pool[l.addition as int]);
            &&& best == Some((l.removal as int, l.addition as int))
            &&& l.removal < state.members.len() - state.fresh
            &&& l.addition < state.pool.len()
            &&& !limits.pins.contains(state.members[l.removal as int].id)
            &&& l.score == NakamotoScore::of(features_of(nodes))
            &&& l.valid == is_valid(nodes, limits.wanted)
            &&& l.dfinity_owned == state.pool[l.addition as int].dfinity_owned
        },
    }
}

/// Whether one exchange is to be preferred to another.
fn is_preferred(new: &Leader, old: &Leader) -> (preferred: bool)
    ensures
        preferred == prefer(
            new.valid,
            new.score,
            new.dfinity_owned,
            old.valid,
            old.score,
            old.dfinity_owned,
        ),
{
    if new.valid != old.valid {
        new.valid
    } else {
        new.score.is_better_than(&old.score) || (new.score.is_tied_with(&old.score)
            && !new.dfinity_owned && old.dfinity_owned)
    }
}

/// The best exchange of one member for one candidate, if there is any.
#[verifier::loop_isolation(false)]
pub(crate) fn pick_swap(
    members: &Vec<Node>,
    fresh: usize,
    pool: &Vec<Node>,
    pins: &Vec<PrincipalId>,
    wanted: &Option<MinNakamotoCoefficients>,
) -> (best: Option<(usize, usize)>)
    requires
        fresh <= members@.len(),
    ensures
        ({
            let state = Search { members: views(members@), pool: views(pool@), fresh: fresh as nat };
            let limits = Limits { pins: pins@, wanted: *wanted };
            match best {
                None => best_swap(state, limits).is_none(),
                Some((r, a)) => best_swap(state, limits) == Some((r as int, a as int)) && r
                    < members@.len() - fresh && a < pool@.len() && !pins@.contains(
                    members@[r as int].id,
                ),
            }
        }),
{
    let ghost state = Search { members: views(members@), pool: views(pool@), fresh: fresh as nat };
    let ghost limits = Limits { pins: pins@, wanted: *wanted };
    let old_members = members.len() - fresh;
    let mut leader: Option<Leader> = None;
    let mut r: usize = 0;
    while r < old_members
        invariant
            r <= old_members,
            leads(leader, scan_removals(state, limits, r as int), state, limits),
        decreases old_members - r,
    {
        if !is_listed(pins, members[r].id) {
            let base = without_node(members, r);
            let mut a: usize = 0;
            let ghost entry = scan_removals(state, limits, r as int);
            while a < pool.len()
                invariant
                    a <= pool.len(),
                    r < old_members,
                    views(base@) == state.members.remove(r as int),
                    leads(leader, scan_additions(state, limits, r as int, a as int, entry), state, limits),
                decreases pool.len() - a,
            {
                let nodes = with_node(&base, &pool[a]);
                assert(views(nodes@) == swapped(state.members, r as int, state.pool[a as int]));
                let score = NakamotoScore::new_from_nodes(nodes.as_slice());
                let valid = check_scored_nodes(&nodes, &score, wanted).is_ok();
                let challenger = Leader {
                    removal: r,
                    addition: a,
                    score,
                    valid,
                    dfinity_owned: pool[a].dfinity_owned,
                };
                let takes_over = match &leader {
                    None => true,
                    Some(l) => is_preferred(&challenger, l),
                };
                if takes_over {
                    leader = Some(challenger);
                }
                a += 1;
            }
        }
        r += 1;
    }
    match leader {
        None => None,
        Some(l) => Some((l.removal, l.addition)),
    }
}

/// The members, the candidates that are left and the identities of the
/// members that left, after at most `steps` times the best exchange was
/// made; and how many members have come in.
#[verifier::loop_isolation(false)]
pub fn search_nodes(
    before: &Vec<Node>,
    candidates: &Vec<Node>,
    pins: &Vec<PrincipalId>,
    wanted: &Option<MinNakamotoCoefficients>,
    steps: usize,
) -> (end: (Vec<Node>, Vec<PrincipalId>, usize))
    ensures
        ({
            let start = search_from(views(before@), views(candidates@));
            let limits = Limits { pins: pins@, wanted: *wanted };
            &&& views(end.0@) == searched(start, limits, steps as nat).members
            &&& end.2 == searched(start, limits, steps as nat).fresh
            &&& end.1@ == removed_by(start, limits, steps as nat)
            &&& end.0@.len() == before@.len()
            &&& end.2 <= end.0@.len()
            &&& end.2 <= steps
            &&& end.1@.len() == end.2
            &&& forall|id: PrincipalId|
                pins@.contains(id) && has_id(views(before@), id) ==> has_id(views(end.0@), id)
        }),
{
    let ghost start = search_from(views(before@), views(candidates@));
    let ghost limits = Limits { pins: pins@, wanted: *wanted };
    let mut members = copy_nodes(before);
    let mut pool = copy_nodes(candidates);
    let mut removed: Vec<PrincipalId> = Vec::new();
    let mut fresh: usize = 0;
    let mut open = true;
    assert(views(members@).len() == members@.len() && views(before@).len() == before@.len());
    assert(removed@ + removed_by(start, limits, steps as nat) =~= removed_by(
        start,
        limits,
        steps as nat,
    ));
    while fresh < steps && open
        invariant
            fresh <= steps,
            fresh <= members@.len(),
            members@.len() == before@.len(),
            removed@.len() == fresh,
            ({
                let state = Search {
                    members: views(members@),
                    pool: views(pool@),
                    fresh: fresh as nat,
                };
                &&& searched(start, limits, steps as nat) == searched(
                    state,
                    limits,
                    (steps - fresh) as nat,
                )
                &&& removed_by(start, limits, steps as nat) == removed@ + removed_by(
                    state,
                    limits,
                    (steps - fresh) as nat,
                )
                &&& (open || best_swap(state, limits).is_none())
            }),
            forall|id: PrincipalId|
                pins@.contains(id) && has_id(views(before@), id) ==> has_id(views(members@), id),
        decreases (steps - fresh) + if open {
            1int
        } else {
            0int
        },
    {
        let ghost state = Search {
            members: views(members@),
            pool: views(pool@),
            fresh: fresh as nat,
        };
        match pick_swap(&members, fresh, &pool, pins, wanted) {
            None => {
                open = false;
            },
            Some((r, a)) => {
                let ghost m = views(members@);
                let ghost p = views(pool@);
                let leaving = members.remove(r);
                assert(views(members@) =~= m.remove(r as int));
                let coming = pool.remove(a);
                assert(views(pool@) =~= p.remove(a as int));
                members.push(coming);
                assert(views(members@) =~= swapped(m, r as int, p[a as int]));
                let ghost gone = removed@;
                removed.push(leaving.id);
                fresh += 1;
                proof {
                    let next = after_swap(state, r as int, a as int);
                    assert(removed@ =~= gone + seq![m[r as int].id]);
                    assert(removed@ + removed_by(next, limits, (steps - fresh) as nat) =~= gone + (
                    seq![m[r as int].id] + removed_by(next, limits, (steps - fresh) as nat)));
                    assert forall|id: PrincipalId|
                        pins@.contains(id) && has_id(views(before@), id) implies has_id(
                        views(members@),
                        id,
                    ) by {
                        assert(has_id(m, id));
                        let i = choose|i: int| 0 <= i < m.len() && #[trigger] m[i].id == id;
                        assert(i != r);
                        if i < r {
                            assert(views(members@)[i].id == id);
                        } else {
                            assert(views(members@)[i - 1].id == id);
                        }
                    }
                }
            },
        }
    }
    (members, removed, fresh)
}

/// The identities of the last `fresh` of the nodes.
pub(crate) fn last_ids(nodes: &Vec<Node>, fresh: usize) -> (ids: Vec<PrincipalId>)
    requires
        fresh <= nodes@.len(),
    ensures
        ids@ == ids_of(views(nodes@).skip(nodes@.len() - fresh)),
{
    let from = nodes.len() - fresh;
    let mut ids: Vec<PrincipalId> = Vec::new();
    let mut i: usize = from;
    while i < nodes.len()
        invariant
            from <= i <= nodes.len(),
            ids@.len() == i - from,
            forall|j: int| 0 <= j < i - from ==> ids@[j] == nodes@[from + j].id,
        decreases nodes.len() - i,
    {
        ids.push(nodes[i].id);
        i += 1;
    }
    assert(ids@ =~= ids_of(views(nodes@).skip(nodes@.len() - fresh)));
    ids
}

/// The test for a candidate that may come in.
pub open spec fn allowed(exclusions: Seq<PrincipalId>) -> spec_fn(NodeView) -> bool {
    |node: NodeView| !exclusions.contains(node.id)
}

/// The test for a member that leaves: it is listed to leave, or it is to be
/// healed and tagged as unhealthy.
pub open spec fn leaves(victims: Seq<PrincipalId>, heal: bool, unhealthy: Seq<PrincipalId>) -> spec_fn(
    NodeView,
) -> bool {
    |node: NodeView| victims.contains(node.id) || (heal && unhealthy.contains(node.id))
}

/// The test for a member that stays.
pub open spec fn stays(victims: Seq<PrincipalId>, heal: bool, unhealthy: Seq<PrincipalId>) -> spec_fn(
    NodeView,
) -> bool {
    |node: NodeView| !(victims.contains(node.id) || (heal && unhealthy.contains(node.id)))
}

/// Copies of the candidates that may come in, in their order.
pub fn allowed_candidates(pool: &Vec<Node>, exclusions: &Vec<PrincipalId>) -> (candidates: Vec<Node>)
    ensures
        views(candidates@) == views(pool@).filter(allowed(exclusions@)),
{
    let ghost all = views(pool@);
    let mut candidates: Vec<Node> = Vec::new();
    let mut i: usize = 0;
    proof {
        reveal(Seq::filter);
        assert(all.take(0) =~= Seq::<NodeView>::empty());
        assert(views(candidates@) =~= all.take(0).filter(allowed(exclusions@)));
    }
    while i < pool.len()
        invariant
            i <= pool.len(),
            all == views(pool@),
            views(candidates@) == all.take(i as int).filter(allowed(exclusions@)),
        decreases pool.len() - i,
    {
        let ghost kept = views(candidates@);
        proof {
            assert(all.take(i + 1) =~= all.take(i as int).push(all[i as int]));
            all.take(i as int).lemma_filter_push(all[i as int], allowed(exclusions@));
        }
        if !is_listed(exclusions, pool[i].id) {
            candidates.push(pool[i].clone());
            assert(views(candidates@) =~= kept.push(all[i as int]));
        }
        i += 1;
    }
    assert(all.take(pool@.len() as int) =~= all);
    candidates
}

/// Copies of the members that stay, and the identities of those that leave,
/// both in the order of the members.
pub fn split_members(
    members: &Vec<Node>,
    victims: &Vec<PrincipalId>,
    heal: bool,
    unhealthy: &Vec<PrincipalId>,
) -> (split: (Vec<Node>, Vec<PrincipalId>))
    ensures
        views(split.0@) == views(members@).filter(stays(victims@, heal, unhealthy@)),
        split.1@ == ids_of(views(members@).filter(leaves(victims@, heal, unhealthy@))),
{
    let ghost all = views(members@);
    let ghost stay = stays(victims@, heal, unhealthy@);
    let ghost leave = leaves(victims@, heal, unhealthy@);
    let mut rest: Vec<Node> = Vec::new();
    let mut gone: Vec<PrincipalId> = Vec::new();
    let mut i: usize = 0;
    proof {
        reveal(Seq::filter);
        assert(all.take(0) =~= Seq::<NodeView>::empty());
        assert(views(rest@) =~= all.take(0).filter(stay));
        assert(gone@ =~= ids_of(all.take(0).filter(leave)));
    }
    while i < members.len()
        invariant
            i <= members.len(),
            all == views(members@),
            stay == stays(victims@, heal, unhealthy@),
            leave == leaves(victims@, heal, unhealthy@),
            views(rest@) == all.take(i as int).filter(stay),
            gone@ == ids_of(all.take(i as int).filter(leave)),
        decreases members.len() - i,
    {
        let ghost kept = views(rest@);
        let ghost left = all.take(i as int).filter(leave);
        proof {
            assert(all.take(i + 1) =~= all.take(i as int).push(all[i as int]));
            all.take(i as int).lemma_filter_push(all[i as int], stay);
            all.take(i as int).lemma_filter_push(all[i as int], leave);
        }
        let id = members[i].id;
        if is_listed(victims, id) || (heal && is_listed(unhealthy, id)) {
            gone.push(id);
            assert(gone@ =~= ids_of(left.push(all[i as int])));
        } else {
            rest.push(members[i].clone());
            assert(views(rest@) =~= kept.push(all[i as int]));
        }
        i += 1;
    }
    assert(all.take(members@.len() as int) =~= all);
    (rest, gone)
}

/// Why the first of the listed nodes from place `from` on that cannot leave
/// cannot: it is no member, or it is pinned.
pub open spec fn first_refused_victim(
    members: Seq<NodeView>,
    victims: Seq<PrincipalId>,
    pins: Seq<PrincipalId>,
    from: int,
) -> Option<NetworkError>
    decreases victims.len() - from,
{
    if from < 0 || from >= victims.len() {
        None
    } else if !has_id(members, victims[from]) {
        Some(NetworkError::UnknownNode { id: victims[from] })
    } else if pins.contains(victims[from]) {
        Some(NetworkError::PinnedAndRemoved { id: victims[from] })
    } else {
        first_refused_victim(members, victims, pins, from + 1)
    }
}

/// The first member from place `from` on that is tagged as unhealthy and
/// pinned.
pub open spec fn first_pinned_patient(
    members: Seq<NodeView>,
    pins: Seq<PrincipalId>,
    unhealthy: Seq<PrincipalId>,
    from: int,
) -> Option<NetworkError>
    decreases members.len() - from,
{
    if from < 0 || from >= members.len() {
        None
    } else if unhealthy.contains(members[from].id) && pins.contains(members[from].id) {
        Some(NetworkError::PinnedAndRemoved { id: members[from].id })
    } else {
        first_pinned_patient(members, pins, unhealthy, from + 1)
    }
}

/// What a replacement gives. The listed nodes leave, and with `heal` the
/// members tagged as unhealthy; as many of the candidates come in, the best
/// first. It fails where a listed node is no member or is pinned, where a
/// member to be healed is pinned, where the candidates are too few, and
/// where a candidate has the identity of a member that stays or of an
/// earlier candidate: with the first of these that holds.
pub open spec fn replaced(
    before: SubnetView,
    candidates: Seq<NodeView>,
    limits: Limits,
    victims: Seq<PrincipalId>,
    heal: bool,
    unhealthy: Seq<PrincipalId>,
) -> Result<SubnetChangeView, NetworkError> {
    let rest = before.nodes.filter(stays(victims, heal, unhealthy));
    let gone = before.nodes.filter(leaves(victims, heal, unhealthy));
    let after = extended(rest, candidates, gone.len());
    if first_refused_victim(before.nodes, victims, limits.pins, 0).is_some() {
        Err(first_refused_victim(before.nodes, victims, limits.pins, 0).unwrap())
    } else if heal && first_pinned_patient(before.nodes, limits.pins, unhealthy, 0).is_some() {
        Err(first_pinned_patient(before.nodes, limits.pins, unhealthy, 0).unwrap())
    } else if candidates.len() < gone.len() {
        Err(
            NetworkError::InsufficientCandidates {
                needed: gone.len() as usize,
                have: candidates.len() as usize,
            },
        )
    } else if first_clash(rest, candidates, 0).is_some() {
        Err(NetworkError::UnknownNode { id: candidates[first_clash(rest, candidates, 0).unwrap()].id })
    } else {
        Ok(
            SubnetChangeView {
                before,
                after: SubnetView { id: before.id, nodes: after },
                removed: ids_of(gone),
                added: ids_of(after.skip(rest.len() as int)),
                reason: ChangeReason::Replaced,
                violation: violation(after, limits.wanted),
            },
        )
    }
}

/// Why the first of the listed nodes that cannot leave cannot.
fn find_refused_victim(members: &Vec<Node>, victims: &Vec<PrincipalId>, pins: &Vec<PrincipalId>) -> (refused:
    Option<NetworkError>)
    ensures
        refused == first_refused_victim(views(members@), victims@, pins@, 0),
{
    let mut i: usize = 0;
    while i < victims.len()
        invariant
            i <= victims.len(),
            first_refused_victim(views(members@), victims@, pins@, 0) == first_refused_victim(
                views(members@),
                victims@,
                pins@,
                i as int,
            ),
        decreases victims.len() - i,
    {
        let id = victims[i];
        match position_of(members, id) {
            None => {
                return Some(NetworkError::UnknownNode { id });
            },
            Some(at) => {
                assert(views(members@)[at as int].id == id);
            },
        }
        if is_listed(pins, id) {
            return Some(NetworkError::PinnedAndRemoved { id });
        }
        i += 1;
    }
    None
}

/// The first member that is tagged as unhealthy and pinned.
fn find_pinned_patient(members: &Vec<Node>, pins: &Vec<PrincipalId>, unhealthy: &Vec<PrincipalId>) -> (refused:
    Option<NetworkError>)
    ensures
        refused == first_pinned_patient(views(members@), pins@, unhealthy@, 0),
{
    let mut i: usize = 0;
    while i < members.len()
        invariant
            i <= members.len(),
            first_pinned_patient(views(members@), pins@, unhealthy@, 0) == first_pinned_patient(
                views(members@),
                pins@,
                unhealthy@,
                i as int,
            ),
        decreases members.len() - i,
    {
        let id = members[i].id;
        if is_listed(unhealthy, id) && is_listed(pins, id) {
            return Some(NetworkError::PinnedAndRemoved { id });
        }
        i += 1;
    }
    None
}

/// A request to change the membership of a subnet: the subnet, the nodes
/// that may come in, the members that must stay, the candidates that must
/// not come in, and how many nodes an optimization may replace.
#[derive(Debug)]
pub struct SubnetChangeRequest {
    pub subnet: Subnet,
    pub available_nodes: Vec<Node>,
    pub include_nodes: Vec<PrincipalId>,
    pub exclude_nodes: Vec<PrincipalId>,
    pub optimize_count: usize,
    pub unhealthy_nodes: Vec<PrincipalId>,
    pub min_nakamoto_coefficients: Option<MinNakamotoCoefficients>,
}

impl SubnetChangeRequest {
    /// What the request allows a search to do.
    pub open spec fn limits(self) -> Limits {
        Limits { pins: self.include_nodes@, wanted: self.min_nakamoto_coefficients }
    }

    /// The candidates that may come in.
    pub open spec fn candidates(self) -> Seq<NodeView> {
        views(self.available_nodes@).filter(allowed(self.exclude_nodes@))
    }

    /// A request without unhealthy nodes and without least coefficients.
    pub fn new(
        subnet: Subnet,
        available_nodes: Vec<Node>,
        include_nodes: Vec<PrincipalId>,
        exclude_nodes: Vec<PrincipalId>,
        optimize_count: usize,
    ) -> (request: Self)
        ensures
            request.subnet == subnet,
            request.available_nodes == available_nodes,
            request.include_nodes == include_nodes,
            request.exclude_nodes == exclude_nodes,
            request.optimize_count == optimize_count,
            request.unhealthy_nodes@ == Seq::<PrincipalId>::empty(),
            request.min_nakamoto_coefficients.is_none(),
    {
        SubnetChangeRequest {
            subnet,
            available_nodes,
            include_nodes,
            exclude_nodes,
            optimize_count,
            unhealthy_nodes: Vec::new(),
            min_nakamoto_coefficients: None,
        }
    }

    /// The request with these nodes tagged as unhealthy.
    pub fn with_unhealthy_nodes(self, unhealthy_nodes: Vec<PrincipalId>) -> (request: Self)
        ensures
            request == (SubnetChangeRequest { unhealthy_nodes, ..self }),
    {
        SubnetChangeRequest { unhealthy_nodes, ..self }
    }

    /// The request with these least coefficients.
    pub fn with_min_nakamoto_coefficients(self, wanted: Option<MinNakamotoCoefficients>) -> (request:
        Self)
        ensures
            request == (SubnetChangeRequest { min_nakamoto_coefficients: wanted, ..self }),
    {
        SubnetChangeRequest { min_nakamoto_coefficients: wanted, ..self }
    }

    /// Replaces up to `optimize_count` nodes so that the subnet scores
    /// better. One node at a time, the exchange of a member that is not
    /// pinned for a candidate that is not excluded is made that is to be
    /// preferred to all others: one after which the subnet meets the rules
    /// before one after which it does not, then by score, then a candidate
    /// that DFINITY does not own, then the earliest. Where the subnet does
    /// not score strictly better in the end, nothing is changed.
    ///
    /// The subnet never scores worse afterwards, and every pinned member
    /// stays. Fails where a candidate has the identity of a member or of an
    /// earlier candidate.
    pub fn optimize(&self, optimize_count: usize) -> (outcome: Result<SubnetChange, NetworkError>)
        ensures
            match outcome {
                Ok(change) => {
                    &&& first_clash(self.subnet@.nodes, self.candidates(), 0).is_none()
                    &&& change@ == optimized(
                        self.subnet@,
                        self.candidates(),
                        self.limits(),
                        optimize_count as nat,
                    )
                    &&& !NakamotoScore::of(features_of(change@.after.nodes)).is_worse_than(
                        NakamotoScore::of(features_of(self.subnet@.nodes)),
                    )
                    &&& forall|id: PrincipalId|
                        self.include_nodes@.contains(id) && has_id(self.subnet@.nodes, id)
                            ==> has_id(change@.after.nodes, id)
                    &&& change@.after.nodes.len() == self.subnet@.nodes.len()
                    &&& change@.removed.len() == change@.added.len() <= optimize_count
                },
                Err(NetworkError::UnknownNode { id }) => {
                    &&& first_clash(self.subnet@.nodes, self.candidates(), 0).is_some()
                    &&& id == self.candidates()[first_clash(
                        self.subnet@.nodes,
                        self.candidates(),
                        0,
                    ).unwrap()].id
                },
                Err(_) => false,
            },
    {
        let candidates = allowed_candidates(&self.available_nodes, &self.exclude_nodes);
        match find_clash(&self.subnet.nodes, &candidates) {
            Some(at) => {
                return Err(NetworkError::UnknownNode { id: candidates[at].id });
            },
            None => {},
        }
        let wanted = self.min_nakamoto_coefficients;
        let score_before = self.subnet.nakamoto_score();
        let (members, removed, fresh) = search_nodes(
            &self.subnet.nodes,
            &candidates,
            &self.include_nodes,
            &wanted,
            optimize_count,
        );
        let score_after = NakamotoScore::new_from_nodes(members.as_slice());
        if score_after.is_better_than(&score_before) {
            let added = last_ids(&members, fresh);
            let violation = match check_scored_nodes(&members, &score_after, &wanted) {
                Ok(_) => None,
                Err(broken) => Some(broken),
            };
            assert(added@.len() == fresh);
            Ok(
                SubnetChange {
                    before: self.subnet.clone(),
                    after: Subnet { id: self.subnet.id, nodes: members },
                    removed,
                    added,
                    reason: ChangeReason::Optimized,
                    violation,
                },
            )
        } else {
            let violation = match check_scored_nodes(&self.subnet.nodes, &score_before, &wanted) {
                Ok(_) => None,
                Err(broken) => Some(broken),
            };
            proof {
                NakamotoScore::lemma_order_of_equal(score_before);
            }
            Ok(
                SubnetChange {
                    before: self.subnet.clone(),
                    after: self.subnet.clone(),
                    removed: Vec::new(),
                    added: Vec::new(),
                    reason: ChangeReason::Unchanged,
                    violation,
                },
            )
        }
    }

    /// An optimization that may replace as many nodes as the request says.
    pub fn evaluate(&self) -> (outcome: Result<SubnetChange, NetworkError>)
        ensures
            match outcome {
                Ok(change) => {
                    &&& first_clash(self.subnet@.nodes, self.candidates(), 0).is_none()
                    &&& change@ == optimized(
                        self.subnet@,
                        self.candidates(),
                        self.limits(),
                        self.optimize_count as nat,
                    )
                },
                Err(NetworkError::UnknownNode { id }) => {
                    &&& first_clash(self.subnet@.nodes, self.candidates(), 0).is_some()
                    &&& id == self.candidates()[first_clash(
                        self.subnet@.nodes,
                        self.candidates(),
                        0,
                    ).unwrap()].id
                },
                Err(_) => false,
            },
    {
        self.optimize(self.optimize_count)
    }

    /// Replaces the nodes listed in `victims` and, with `heal`, the members
    /// tagged as unhealthy: they leave, and as many candidates that are not
    /// excluded come in, each time the one with which the subnet scores
    /// best.
    pub fn replace(&self, victims: &Vec<PrincipalId>, heal: bool) -> (outcome: Result<
        SubnetChange,
        NetworkError,
    >)
        ensures
            match outcome {
                Ok(change) => replaced(
                    self.subnet@,
                    self.candidates(),
                    self.limits(),
                    victims@,
                    heal,
                    self.unhealthy_nodes@,
                ) == Ok::<SubnetChangeView, NetworkError>(change@),
                Err(error) => replaced(
                    self.subnet@,
                    self.candidates(),
                    self.limits(),
                    victims@,
                    heal,
                    self.unhealthy_nodes@,
                ) == Err::<SubnetChangeView, NetworkError>(error),
            },
    {
        match find_refused_victim(&self.subnet.nodes, victims, &self.include_nodes) {
            Some(error) => {
                return Err(error);
            },
            None => {},
        }
        if heal {
            match find_pinned_patient(&self.subnet.nodes, &self.include_nodes, &self.unhealthy_nodes) {
                Some(error) => {
                    return Err(error);
                },
                None => {},
            }
        }
        let (rest, removed) = split_members(&self.subnet.nodes, victims, heal, &self.unhealthy_nodes);
        let candidates = allowed_candidates(&self.available_nodes, &self.exclude_nodes);
        let needed = removed.len();
        assert(views(candidates@).len() == candidates@.len());
        if candidates.len() < needed {
            return Err(NetworkError::InsufficientCandidates { needed, have: candidates.len() });
        }
        match find_clash(&rest, &candidates) {
            Some(at) => {
                return Err(NetworkError::UnknownNode { id: candidates[at].id });
            },
            None => {},
        }
        let kept = rest.len();
        let nodes = extend_nodes(&rest, &candidates, needed);
        proof {
            lemma_extended(views(rest@), views(candidates@), needed as nat);
            assert(views(rest@).len() == rest@.len());
            assert(views(nodes@).len() == nodes@.len());
        }
        let added = last_ids(&nodes, needed);
        let violation = match check_nodes(&nodes, &self.min_nakamoto_coefficients) {
            Ok(_) => None,
            Err(broken) => Some(broken),
        };
        Ok(
            SubnetChange {
                before: self.subnet.clone(),
                after: Subnet { id: self.subnet.id, nodes },
                removed,
                added,
                reason: ChangeReason::Replaced,
                violation,
            },
        )
    }
}

} // verus!
