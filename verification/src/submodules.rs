//! The submodules of a repository, and theirs in turn: in which order they are
//! brought to what the head names.

use vstd::prelude::*;
use crate::deployment::GitDeployment;

verus! {

/// A call on a repository or a submodule. Where it stands is told by the way to
/// it: the numbers of the submodules that lead there, from the outermost on.
#[derive(Debug, PartialEq, Eq)]
pub enum SubmoduleCall<P> {
    /// Open the repository, and count its submodules.
    List { repo: P },
    /// Bring a submodule to what the repository around it names.
    Update { module: P, init: bool },
}

/// What came of a call.
#[derive(Clone, Copy, Debug, PartialEq, Eq, Structural)]
pub enum SubmoduleReply {
    /// The number of submodules.
    Listed { count: usize },
    /// The submodule was brought to what is named.
    Done,
    /// The call failed.
    Failed,
}

/// What is to be done next.
#[derive(Debug, PartialEq, Eq)]
pub enum SubmoduleNext<P> {
    /// Make a call.
    Perform { call: SubmoduleCall<P> },
    /// All submodules are as they should be.
    Finished,
    /// The last call failed, and nothing follows it.
    Aborted,
}

impl View for SubmoduleCall<Vec<usize>> {
    type V = SubmoduleCall<Seq<usize>>;

    open spec fn view(&self) -> SubmoduleCall<Seq<usize>> {
        match *self {
            SubmoduleCall::List { repo } => SubmoduleCall::List { repo: repo@ },
            SubmoduleCall::Update { module, init } => SubmoduleCall::Update { module: module@, init },
        }
    }
}

impl View for SubmoduleNext<Vec<usize>> {
    type V = SubmoduleNext<Seq<usize>>;

    open spec fn view(&self) -> SubmoduleNext<Seq<usize>> {
        match *self {
            SubmoduleNext::Perform { call } => SubmoduleNext::Perform { call: call@ },
            SubmoduleNext::Finished => SubmoduleNext::Finished,
            SubmoduleNext::Aborted => SubmoduleNext::Aborted,
        }
    }
}

/// A call, in the model.
pub type SubmoduleAct = SubmoduleCall<Seq<usize>>;

/// What is to be done next, in the model.
pub type SubmoduleStep = SubmoduleNext<Seq<usize>>;

/// The calls that a list stands for.
pub open spec fn submodule_calls(list: Seq<SubmoduleCall<Vec<usize>>>) -> Seq<SubmoduleAct> {
    Seq::new(list.len(), |i: int| list[i]@)
}

/// The state of the walk over submodules.
pub struct SubmoduleView {
    /// The repository whose submodules are being counted, if one is.
    pub listing: Option<Seq<usize>>,
    /// A submodule is being updated.
    pub updating: bool,
    pub todo: Seq<SubmoduleAct>,
}

/// The calls for the submodules of a repository from one of them on: each is
/// updated and then looked into.
pub open spec fn submodule_steps(repo: Seq<usize>, from: nat, count: usize) -> Seq<SubmoduleAct>
    decreases count - from,
{
    if from >= count {
        Seq::empty()
    } else {
        let module = repo.push(from as usize);
        seq![
            SubmoduleCall::Update { module, init: true },
            SubmoduleCall::List { repo: module },
        ] + submodule_steps(repo, from + 1, count)
    }
}

/// Goes on with the first call of a list.
pub open spec fn submodules_resumed(todo: Seq<SubmoduleAct>) -> (SubmoduleView, SubmoduleStep) {
    if todo.len() == 0 {
        (SubmoduleView { listing: None, updating: false, todo }, SubmoduleNext::Finished)
    } else {
        let call = todo[0];
        let listing = match call {
            SubmoduleCall::List { repo } => Some(repo),
            _ => None,
        };
        (
            SubmoduleView { listing, updating: call is Update, todo: todo.skip(1) },
            SubmoduleNext::Perform { call },
        )
    }
}

/// What follows the answer to the last call.
pub open spec fn submodules_answered(s: SubmoduleView, reply: SubmoduleReply) -> (
    SubmoduleView,
    SubmoduleStep,
) {
    match (s.listing, s.updating, reply) {
        (Some(repo), _, SubmoduleReply::Listed { count }) => submodules_resumed(
            submodule_steps(repo, 0, count) + s.todo,
        ),
        (None, true, SubmoduleReply::Done) => submodules_resumed(s.todo),
        _ => (
            SubmoduleView { listing: None, updating: false, todo: Seq::empty() },
            SubmoduleNext::Aborted,
        ),
    }
}

/// A walk over submodules.
pub struct SubmoduleWalk {
    listing: Option<Vec<usize>>,
    updating: bool,
    todo: Vec<SubmoduleCall<Vec<usize>>>,
}

impl View for SubmoduleWalk {
    type V = SubmoduleView;

    closed spec fn view(&self) -> SubmoduleView {
        SubmoduleView {
            listing: match self.listing {
                Some(repo) => Some(repo@),
                None => None,
            },
            updating: self.updating,
            todo: submodule_calls(self.todo@),
        }
    }
}

impl GitDeployment {
    /// Starts to bring all submodules of a repository to what its head names.
    pub fn update_submodules() -> (r: (SubmoduleWalk, SubmoduleNext<Vec<usize>>))
        ensures
            (r.0@, r.1@) == submodules_resumed(seq![SubmoduleCall::List { repo: Seq::empty() }]),
    {
        let mut todo: Vec<SubmoduleCall<Vec<usize>>> = Vec::new();
        todo.push(SubmoduleCall::List { repo: Vec::new() });
        let mut walk = SubmoduleWalk { listing: None, updating: false, todo };
        proof {
            let first: Seq<SubmoduleAct> = seq![SubmoduleCall::List { repo: Seq::empty() }];
            assert(walk@.todo[0]->repo =~= Seq::<usize>::empty());
            assert(walk@.todo =~= first);
        }
        let next = walk.resume();
        (walk, next)
    }
}

/// The calls for all submodules of a repository.
fn steps_into(repo: &Vec<usize>, count: usize) -> (r: Vec<SubmoduleCall<Vec<usize>>>)
    ensures
        submodule_calls(r@) == submodule_steps(repo@, 0, count),
{
    let mut r: Vec<SubmoduleCall<Vec<usize>>> = Vec::new();
    let ghost all = submodule_steps(repo@, 0, count);
    let mut i: usize = 0;
    assert(submodule_calls(r@) + all =~= all);
    while i < count
        invariant
            i <= count,
            submodule_calls(r@) + submodule_steps(repo@, i as nat, count) == all,
        decreases count - i,
    {
        let ghost before = submodule_calls(r@);
        let mut module = repo.clone();
        module.push(i);
        assert(module@ =~= repo@.push(i));
        r.push(SubmoduleCall::Update { module: module.clone(), init: true });
        r.push(SubmoduleCall::List { repo: module });
        proof {
            let first: SubmoduleAct = SubmoduleCall::Update { module: repo@.push(i), init: true };
            let second: SubmoduleAct = SubmoduleCall::List { repo: repo@.push(i) };
            assert(submodule_calls(r@)[before.len() as int] == first);
            assert(submodule_calls(r@) =~= before + seq![first, second]);
            let rest = submodule_steps(repo@, (i + 1) as nat, count);
            assert(submodule_steps(repo@, i as nat, count) == seq![first, second] + rest);
            assert((before + seq![first, second]) + rest =~= before + (seq![first, second] + rest));
        }
        i += 1;
    }
    assert(submodule_calls(r@) =~= all);
    r
}

impl SubmoduleWalk {
    fn resume(&mut self) -> (r: SubmoduleNext<Vec<usize>>)
        ensures
            (final(self)@, r@) == submodules_resumed(old(self)@.todo),
    {
        let ghost before = self@.todo;
        self.listing = None;
        self.updating = false;
        if self.todo.len() == 0 {
            return SubmoduleNext::Finished;
        }
        let call = self.todo.remove(0);
        assert(self@.todo =~= before.skip(1));
        match &call {
            SubmoduleCall::List { repo } => {
                let copy = repo.clone();
                assert(copy@ =~= repo@);
                self.listing = Some(copy);
            },
            SubmoduleCall::Update { .. } => {
                self.updating = true;
            },
        }
        SubmoduleNext::Perform { call }
    }

    /// Takes the answer to the last call and says what is to be done next.
    pub fn next(&mut self, reply: SubmoduleReply) -> (r: SubmoduleNext<Vec<usize>>)
        ensures
            (final(self)@, r@) == submodules_answered(old(self)@, reply),
    {
        let ghost before = self@;
        match (&self.listing, self.updating, reply) {
            (Some(repo), _, SubmoduleReply::Listed { count }) => {
                let mut todo = steps_into(repo, count);
                let ghost steps = submodule_calls(todo@);
                todo.append(&mut self.todo);
                self.todo = todo;
                assert(self@.todo =~= steps + before.todo);
                self.resume()
            },
            (None, true, SubmoduleReply::Done) => self.resume(),
            _ => {
                self.listing = None;
                self.updating = false;
                self.todo.clear();
                assert(self@.todo =~= Seq::<SubmoduleAct>::empty());
                SubmoduleNext::Aborted
            },
        }
    }
}

/// How many submodules each repository has.
pub type Counts = spec_fn(Seq<usize>) -> usize;

/// What a call that succeeds is answered.
pub open spec fn submodule_answer(counts: Counts, call: SubmoduleAct) -> SubmoduleReply {
    match call {
        SubmoduleCall::List { repo } => SubmoduleReply::Listed { count: counts(repo) },
        SubmoduleCall::Update { .. } => SubmoduleReply::Done,
    }
}

/// Where the walk is after a number of calls that all succeed.
pub open spec fn submodules_after(
    counts: Counts,
    at: (SubmoduleView, SubmoduleStep),
    n: nat,
) -> (SubmoduleView, SubmoduleStep)
    decreases n,
{
    match at.1 {
        SubmoduleNext::Perform { call } if n > 0 => submodules_after(
            counts,
            submodules_answered(at.0, submodule_answer(counts, call)),
            (n - 1) as nat,
        ),
        _ => at,
    }
}

/// The first calls of the walk, a number of them, where all succeed.
pub open spec fn submodules_performed(
    counts: Counts,
    at: (SubmoduleView, SubmoduleStep),
    n: nat,
) -> Seq<SubmoduleAct>
    decreases n,
{
    match at.1 {
        SubmoduleNext::Perform { call } if n > 0 => seq![call] + submodules_performed(
            counts,
            submodules_answered(at.0, submodule_answer(counts, call)),
            (n - 1) as nat,
        ),
        _ => Seq::empty(),
    }
}

/// The submodules of a repository are nested no deeper than given.
pub open spec fn nested_within(counts: Counts, repo: Seq<usize>, depth: nat) -> bool
    decreases depth,
{
    if depth == 0 {
        counts(repo) == 0
    } else {
        forall|i: nat| #![trigger repo.push(i as usize)]
            i < counts(repo) ==> nested_within(counts, repo.push(i as usize), (depth - 1) as nat)
    }
}

/// A repository and all below it: each submodule is updated, and then all below
/// it are, before the next one's turn comes.
pub open spec fn submodule_tree(counts: Counts, repo: Seq<usize>, depth: nat) -> Seq<SubmoduleAct>
    decreases depth, counts(repo) + 1,
{
    seq![SubmoduleCall::List { repo }] + submodule_forest(counts, repo, 0, depth)
}

/// The submodules of a repository from one of them on, and all below them.
pub open spec fn submodule_forest(
    counts: Counts,
    repo: Seq<usize>,
    from: nat,
    depth: nat,
) -> Seq<SubmoduleAct>
    decreases depth, counts(repo) - from,
{
    if from >= counts(repo) || depth == 0 {
        Seq::empty()
    } else {
        let module = repo.push(from as usize);
        seq![SubmoduleCall::Update { module, init: true }] + submodule_tree(
            counts,
            module,
            (depth - 1) as nat,
        ) + submodule_forest(counts, repo, from + 1, depth)
    }
}

/// Some calls and then some more.
proof fn lemma_submodules_on(counts: Counts, at: (SubmoduleView, SubmoduleStep), m: nat, n: nat)
    ensures
        submodules_after(counts, at, m + n) == submodules_after(
            counts,
            submodules_after(counts, at, m),
            n,
        ),
        submodules_performed(counts, at, m + n) == submodules_performed(counts, at, m)
            + submodules_performed(counts, submodules_after(counts, at, m), n),
    decreases m,
{
    if m > 0 {
        if let SubmoduleNext::Perform { call } = at.1 {
            let then = submodules_answered(at.0, submodule_answer(counts, call));
            lemma_submodules_on(counts, then, (m - 1) as nat, n);
            let a = submodules_performed(counts, then, (m - 1) as nat);
            let b = submodules_performed(counts, submodules_after(counts, at, m), n);
            assert(seq![call] + (a + b) =~= (seq![call] + a) + b);
        } else {
            assert(submodules_performed(counts, at, m + n) =~= Seq::<SubmoduleAct>::empty()
                + Seq::<SubmoduleAct>::empty());
        }
    } else {
        assert(submodules_performed(counts, at, n) =~= Seq::<SubmoduleAct>::empty()
            + submodules_performed(counts, at, n));
    }
}

/// One call.
proof fn lemma_submodules_once(counts: Counts, at: (SubmoduleView, SubmoduleStep))
    requires
        at.1 is Perform,
    ensures
        submodules_after(counts, at, 1) == submodules_answered(
            at.0,
            submodule_answer(counts, at.1->call),
        ),
        submodules_performed(counts, at, 1) == seq![at.1->call],
{
    reveal_with_fuel(submodules_after, 2);
    reveal_with_fuel(submodules_performed, 2);
    assert(submodules_performed(counts, at, 1) =~= seq![at.1->call]);
}

proof fn lemma_tree_performed(counts: Counts, repo: Seq<usize>, depth: nat, rest: Seq<SubmoduleAct>)
    requires
        nested_within(counts, repo, depth),
    ensures
        ({
            let all = submodule_tree(counts, repo, depth);
            let at = submodules_resumed(seq![SubmoduleCall::List { repo }] + rest);
            &&& submodules_performed(counts, at, all.len()) == all
            &&& submodules_after(counts, at, all.len()) == submodules_resumed(rest)
        }),
    decreases depth, counts(repo) + 1,
{
    let first: SubmoduleAct = SubmoduleCall::List { repo };
    let at = submodules_resumed(seq![first] + rest);
    assert((seq![first] + rest).skip(1) =~= rest);
    let more = submodule_forest(counts, repo, 0, depth);
    lemma_submodules_once(counts, at);
    lemma_forest_performed(counts, repo, 0, depth, rest);
    lemma_submodules_on(counts, at, 1, more.len());
    assert(submodule_tree(counts, repo, depth).len() == 1 + more.len());
}

proof fn lemma_forest_performed(
    counts: Counts,
    repo: Seq<usize>,
    from: nat,
    depth: nat,
    rest: Seq<SubmoduleAct>,
)
    requires
        nested_within(counts, repo, depth),
    ensures
        ({
            let all = submodule_forest(counts, repo, from, depth);
            let at = submodules_resumed(submodule_steps(repo, from, counts(repo)) + rest);
            &&& submodules_performed(counts, at, all.len()) == all
            &&& submodules_after(counts, at, all.len()) == submodules_resumed(rest)
        }),
    decreases depth, counts(repo) - from,
{
    let count = counts(repo);
    let steps = submodule_steps(repo, from, count);
    if from >= count {
        assert(steps + rest =~= rest);
    } else {
        let module = repo.push(from as usize);
        assert(nested_within(counts, module, (depth - 1) as nat));
        let first: SubmoduleAct = SubmoduleCall::Update { module, init: true };
        let second: SubmoduleAct = SubmoduleCall::List { repo: module };
        let later = submodule_steps(repo, from + 1, count) + rest;
        assert(steps + rest =~= seq![first] + (seq![second] + later));
        let at = submodules_resumed(steps + rest);
        assert((steps + rest).skip(1) =~= seq![second] + later);
        lemma_submodules_once(counts, at);
        let tree = submodule_tree(counts, module, (depth - 1) as nat);
        let forest = submodule_forest(counts, repo, from + 1, depth);
        lemma_tree_performed(counts, module, (depth - 1) as nat, later);
        lemma_forest_performed(counts, repo, from + 1, depth, rest);
        lemma_submodules_on(counts, at, 1, tree.len());
        lemma_submodules_on(counts, at, 1 + tree.len(), forest.len());
    }
}

/// Where all calls succeed, every submodule at every depth is updated, each
/// before those below it, and the walk is finished.
pub proof fn law_all_submodules_are_updated(counts: Counts, depth: nat)
    requires
        nested_within(counts, Seq::empty(), depth),
    ensures
        ({
            let all = submodule_tree(counts, Seq::empty(), depth);
            let at = submodules_resumed(seq![SubmoduleCall::List { repo: Seq::empty() }]);
            &&& submodules_performed(counts, at, all.len()) == all
            &&& submodules_after(counts, at, all.len()).1 is Finished
        }),
{
    let first: SubmoduleAct = SubmoduleCall::List { repo: Seq::empty() };
    assert(seq![first] + Seq::<SubmoduleAct>::empty() =~= seq![first]);
    lemma_tree_performed(counts, Seq::empty(), depth, Seq::empty());
}

/// The first call that fails ends the walk.
pub proof fn law_failed_submodules_end_the_walk(s: SubmoduleView)
    ensures
        submodules_answered(s, SubmoduleReply::Failed).1 is Aborted,
        forall|reply: SubmoduleReply| #[trigger] submodules_answered(
            submodules_answered(s, SubmoduleReply::Failed).0,
            reply,
        ).1 is Aborted,
{
}

} // verus!
