//! Directory tree plans.
//!
//! A plan is the complete shape of a tree to be generated: for every
//! directory, the files it holds (with each file's size and content seed) and
//! its subdirectories. Plans are built by recursive sampling in
//! [`build_tree`], and their aggregate properties (file, directory and byte
//! totals, nesting depth) are defined here.

use vstd::prelude::*;

use rand_xorshift::XorShiftRng;

use crate::rng::{
    next_seed, prng_fill, prng_from_seed, rng_state, spec_next_seed, xorshift_fill, xorshift_init,
    Seed,
};
use crate::sample::{sample_count, spec_sample};

verus! {

/// One planned file: its size in bytes and the seed its content is drawn
/// from. A file with size zero carries the all-zero seed and no content
/// stream.
#[derive(Clone, Copy, PartialEq, Eq, Structural, Debug)]
pub struct FilePlan {
    pub size: usize,
    pub seed: Seed,
}

/// One planned directory: the files it holds directly and the plans of its
/// subdirectories, in creation order.
pub struct DirPlan {
    pub files: Vec<FilePlan>,
    pub dirs: Vec<DirPlan>,
}

/// The bytes a planned file holds: its size's worth of its own content
/// stream, so content is as reproducible as the shape.
pub open spec fn spec_file_contents(f: FilePlan) -> Seq<u8> {
    xorshift_fill(xorshift_init(f.seed@), f.size as nat).0
}

/// Draw a planned file's content from its seed.
pub fn file_contents(f: &FilePlan) -> (r: Vec<u8>)
    ensures
        r@ == spec_file_contents(*f),
        r@.len() == f.size,
{
    let mut rng = prng_from_seed(&f.seed);
    prng_fill(&mut rng, f.size)
}

/// The mathematical shape of a [`DirPlan`]: the same tree over `Seq` instead
/// of `Vec`.
#[verifier::ext_equal]
pub ghost struct DirModel {
    pub files: Seq<FilePlan>,
    pub dirs: Seq<DirModel>,
}

impl DirPlan {
    /// The mathematical shape of this plan.
    pub open spec fn model(&self) -> DirModel
        decreases self,
    {
        DirModel {
            files: self.files@,
            dirs: Seq::new(
                self.dirs@.len(),
                |i: int|
                    if 0 <= i < self.dirs@.len() {
                        self.dirs@[i].model()
                    } else {
                        arbitrary()
                    },
            ),
        }
    }
}

impl View for DirPlan {
    type V = DirModel;

    open spec fn view(&self) -> DirModel {
        self.model()
    }
}

/// How many plain files the whole tree holds.
pub open spec fn total_files(m: DirModel) -> nat
    decreases m,
{
    m.files.len() + total_files_seq(m.dirs)
}

/// How many plain files a run of sibling trees holds.
pub open spec fn total_files_seq(s: Seq<DirModel>) -> nat
    decreases s,
{
    if s.len() == 0 {
        0
    } else {
        total_files(s[0]) + total_files_seq(s.subrange(1, s.len() as int))
    }
}

/// How many directories the whole tree holds, the root not counted.
pub open spec fn total_dirs(m: DirModel) -> nat
    decreases m,
{
    m.dirs.len() + total_dirs_seq(m.dirs)
}

/// How many directories a run of sibling trees holds, themselves not counted.
pub open spec fn total_dirs_seq(s: Seq<DirModel>) -> nat
    decreases s,
{
    if s.len() == 0 {
        0
    } else {
        total_dirs(s[0]) + total_dirs_seq(s.subrange(1, s.len() as int))
    }
}

/// The byte total of the files of one directory.
pub open spec fn own_bytes(files: Seq<FilePlan>) -> nat
    decreases files,
{
    if files.len() == 0 {
        0
    } else {
        files[0].size as nat + own_bytes(files.subrange(1, files.len() as int))
    }
}

/// The byte total of the whole tree.
pub open spec fn total_bytes(m: DirModel) -> nat
    decreases m,
{
    own_bytes(m.files) + total_bytes_seq(m.dirs)
}

/// The byte total of a run of sibling trees.
pub open spec fn total_bytes_seq(s: Seq<DirModel>) -> nat
    decreases s,
{
    if s.len() == 0 {
        0
    } else {
        total_bytes(s[0]) + total_bytes_seq(s.subrange(1, s.len() as int))
    }
}

/// The nesting depth of the tree: zero for a childless root, one more than
/// the deepest subdirectory otherwise.
pub open spec fn tree_depth(m: DirModel) -> nat
    decreases m,
{
    if m.dirs.len() == 0 {
        0
    } else {
        1 + max_depth_seq(m.dirs)
    }
}

/// The deepest nesting depth among a run of sibling trees.
pub open spec fn max_depth_seq(s: Seq<DirModel>) -> nat
    decreases s,
{
    if s.len() == 0 {
        0
    } else {
        let rest = max_depth_seq(s.subrange(1, s.len() as int));
        if tree_depth(s[0]) >= rest {
            tree_depth(s[0])
        } else {
            rest
        }
    }
}

/// The sampling parameters, remaining depth and seed that one directory node
/// owns. A node's state is fixed by its parent before the node is entered;
/// the node derives its children's states from its own private stream.
#[derive(Clone, Copy, PartialEq, Eq, Structural, Debug)]
pub struct GeneratorState {
    pub files_per_dir: usize,
    pub dirs_per_dir: usize,
    pub bytes_per_file: usize,
    pub max_depth: u32,
    pub seed: Seed,
}

/// The seeds that `k` consecutive child derivations draw from a state, and
/// the state they leave behind.
pub open spec fn spec_seed_run(k: nat, state: Seq<u32>) -> (Seq<Seed>, Seq<u32>)
    decreases k,
{
    if k == 0 {
        (Seq::<Seed>::empty(), state)
    } else {
        let (pre, st) = spec_seed_run((k - 1) as nat, state);
        let (sd, st2) = spec_next_seed(st);
        (pre.push(sd), st2)
    }
}

/// The plans of `k` files drawn from a state, and the state they leave
/// behind. With no byte target each file is empty and draws nothing; else
/// each file draws its size and then its content seed.
pub open spec fn spec_files(k: nat, bytes_per_file: usize, state: Seq<u32>) -> (
    Seq<FilePlan>,
    Seq<u32>,
)
    decreases k,
{
    if k == 0 {
        (Seq::<FilePlan>::empty(), state)
    } else {
        let (pre, st) = spec_files((k - 1) as nat, bytes_per_file, state);
        if bytes_per_file == 0 {
            (pre.push(FilePlan { size: 0, seed: Seed { w0: 0, w1: 0, w2: 0, w3: 0 } }), st)
        } else {
            let (size, st2) = spec_sample(bytes_per_file, st);
            let (sd, st3) = spec_next_seed(st2);
            (pre.push(FilePlan { size, seed: sd }), st3)
        }
    }
}

/// The file count a node keeps for itself: the sampled draw in approximate
/// mode; under a file budget, the whole remaining budget at a leaf, and the
/// draw capped by the budget elsewhere.
pub open spec fn spec_own_files(file_budget: Option<usize>, sampled: usize, n_dirs: usize) -> usize {
    match file_budget {
        Option::None => sampled,
        Option::Some(b) => if n_dirs == 0 {
            b
        } else if sampled <= b {
            sampled
        } else {
            b
        },
    }
}

/// The file budget left for a node's children.
pub open spec fn spec_rem(file_budget: Option<usize>, own: usize) -> usize {
    match file_budget {
        Option::None => 0usize,
        Option::Some(b) => (b - own) as usize,
    }
}

/// Child `i`'s share of a remaining file budget split across `n` siblings: an
/// equal split, with the division remainder going to the last child, so the
/// shares add up to the whole remainder.
pub open spec fn spec_child_budget(rem: usize, n: usize, i: int) -> usize
    recommends
        n >= 1,
{
    if i == n - 1 {
        (rem / n + rem % n) as usize
    } else {
        rem / n
    }
}

/// One run of sibling subtrees, as the parent fixes it: the inherited
/// parameters, the children's remaining depth, their seeds, and the file
/// budget left for them.
#[verifier::ext_equal]
pub ghost struct SiblingRun {
    pub files_per_dir: usize,
    pub dirs_per_dir: usize,
    pub bytes_per_file: usize,
    pub depth: u32,
    pub seeds: Seq<Seed>,
    pub budgeted: bool,
    pub rem: usize,
    pub n: usize,
}

/// The generator state that child `i` of a run receives.
pub open spec fn run_child_state(run: SiblingRun, i: int) -> GeneratorState {
    GeneratorState {
        files_per_dir: run.files_per_dir,
        dirs_per_dir: run.dirs_per_dir,
        bytes_per_file: run.bytes_per_file,
        max_depth: run.depth,
        seed: run.seeds[i],
    }
}

/// The file budget that child `i` of a run receives.
pub open spec fn run_child_budget(run: SiblingRun, i: int) -> Option<usize> {
    if run.budgeted {
        Option::Some(spec_child_budget(run.rem, run.n, i))
    } else {
        Option::None
    }
}

/// The plans of the first `k` children of a sibling run.
pub open spec fn spec_children(run: SiblingRun, k: nat) -> Seq<DirModel>
    decreases run.depth, 1int, k,
{
    if k == 0 {
        Seq::<DirModel>::empty()
    } else {
        spec_children(run, (k - 1) as nat).push(
            spec_build_tree(run_child_state(run, k - 1), run_child_budget(run, k - 1)),
        )
    }
}

/// The sibling run that a node with the given state, sampled fan-out, seeds
/// and remaining file budget spawns.
pub open spec fn spec_run_of(
    state: GeneratorState,
    n_dirs: usize,
    seeds: Seq<Seed>,
    file_budget: Option<usize>,
    own: usize,
) -> SiblingRun
    recommends
        state.max_depth >= 1,
{
    SiblingRun {
        files_per_dir: state.files_per_dir,
        dirs_per_dir: state.dirs_per_dir,
        bytes_per_file: state.bytes_per_file,
        depth: (state.max_depth - 1) as u32,
        seeds,
        budgeted: file_budget is Some,
        rem: spec_rem(file_budget, own),
        n: n_dirs,
    }
}

/// The plan of the tree grown from one node state, under an optional exact
/// file budget. The node's stream is used in a fixed order: the file-count
/// draw, the fan-out draw (skipped at depth zero), one seed per child, then
/// per file a size draw and a content seed (skipped when there is no byte
/// target).
pub open spec fn spec_build_tree(state: GeneratorState, file_budget: Option<usize>) -> DirModel
    decreases state.max_depth, 0int, 0int,
{
    let st0 = xorshift_init(state.seed@);
    let (sampled, st1) = spec_sample(state.files_per_dir, st0);
    let (n_dirs, st2) = if state.max_depth == 0 {
        (0usize, st1)
    } else {
        spec_sample(state.dirs_per_dir, st1)
    };
    let own = spec_own_files(file_budget, sampled, n_dirs);
    let (seeds, st3) = spec_seed_run(n_dirs as nat, st2);
    let (files, st4) = spec_files(own as nat, state.bytes_per_file, st3);
    if state.max_depth == 0 {
        DirModel { files, dirs: Seq::<DirModel>::empty() }
    } else {
        DirModel {
            files,
            dirs: spec_children(
                spec_run_of(state, n_dirs, seeds, file_budget, own),
                n_dirs as nat,
            ),
        }
    }
}

/// Grow the plan of the tree rooted at one node state. Under `file_budget`
/// the subtree holds exactly that many files; without one, counts follow the
/// sampled draws.
pub fn build_tree(state: &GeneratorState, file_budget: Option<usize>) -> (r: DirPlan)
    ensures
        r@ == spec_build_tree(*state, file_budget),
    decreases state.max_depth,
{
    let mut rng = prng_from_seed(&state.seed);
    let sampled = sample_count(state.files_per_dir, &mut rng);
    let n_dirs = if state.max_depth == 0 {
        0
    } else {
        sample_count(state.dirs_per_dir, &mut rng)
    };
    let own = match file_budget {
        Option::None => sampled,
        Option::Some(b) => if n_dirs == 0 {
            b
        } else if sampled <= b {
            sampled
        } else {
            b
        },
    };
    let ghost st2 = rng_state(rng);
    let mut seeds: Vec<Seed> = Vec::new();
    let mut i: usize = 0;
    while i < n_dirs
        invariant
            0 <= i <= n_dirs,
            seeds@.len() == i,
            (seeds@, rng_state(rng)) == spec_seed_run(i as nat, st2),
        decreases n_dirs - i,
    {
        let sd = next_seed(&mut rng);
        seeds.push(sd);
        i = i + 1;
    }
    let ghost st3 = rng_state(rng);
    let mut files: Vec<FilePlan> = Vec::new();
    let mut j: usize = 0;
    while j < own
        invariant
            0 <= j <= own,
            files@.len() == j,
            (files@, rng_state(rng)) == spec_files(j as nat, state.bytes_per_file, st3),
        decreases own - j,
    {
        if state.bytes_per_file == 0 {
            files.push(FilePlan { size: 0, seed: Seed::zero() });
        } else {
            let size = sample_count(state.bytes_per_file, &mut rng);
            let sd = next_seed(&mut rng);
            files.push(FilePlan { size, seed: sd });
        }
        j = j + 1;
    }
    if state.max_depth == 0 {
        let r = DirPlan { files, dirs: Vec::new() };
        proof {
            let m = spec_build_tree(*state, file_budget);
            assert(st2 == spec_seed_run(0, st2).1);
            assert(r@.files == m.files);
            assert(r@.dirs =~= m.dirs);
            assert(r@ =~= m);
        }
        r
    } else {
        let ghost run = spec_run_of(*state, n_dirs, seeds@, file_budget, own);
        let mut children: Vec<DirPlan> = Vec::new();
        let mut c: usize = 0;
        while c < n_dirs
            invariant
                0 <= c <= n_dirs,
                state.max_depth >= 1,
                seeds@.len() == n_dirs,
                children@.len() == c,
                run == spec_run_of(*state, n_dirs, seeds@, file_budget, own),
                own <= spec_budget_bound(file_budget),
                forall|t: int|
                    0 <= t < c ==> #[trigger] children@[t]@ == spec_build_tree(
                        run_child_state(run, t),
                        run_child_budget(run, t),
                    ),
            decreases n_dirs - c,
        {
            let child_state = GeneratorState {
                files_per_dir: state.files_per_dir,
                dirs_per_dir: state.dirs_per_dir,
                bytes_per_file: state.bytes_per_file,
                max_depth: state.max_depth - 1,
                seed: seeds[c],
            };
            let child_budget = match file_budget {
                Option::None => Option::None,
                Option::Some(b) => {
                    let rem = b - own;
                    proof {
                        vstd::arithmetic::div_mod::lemma_fundamental_div_mod(
                            rem as int,
                            n_dirs as int,
                        );
                        assert((rem as int) / (n_dirs as int) + (rem as int) % (n_dirs as int)
                            <= rem) by (nonlinear_arith)
                            requires
                                rem as int == (n_dirs as int) * ((rem as int) / (n_dirs as int)) + (
                                rem as int) % (n_dirs as int),
                                n_dirs >= 1,
                                rem >= 0,
                                (rem as int) / (n_dirs as int) >= 0,
                                (rem as int) % (n_dirs as int) >= 0,
                        ;
                    }
                    Option::Some(
                        if c == n_dirs - 1 {
                            rem / n_dirs + rem % n_dirs
                        } else {
                            rem / n_dirs
                        },
                    )
                },
            };
            proof {
                assert(child_state == run_child_state(run, c as int));
                assert(child_budget == run_child_budget(run, c as int));
            }
            let child = build_tree(&child_state, child_budget);
            children.push(child);
            c = c + 1;
        }
        let r = DirPlan { files, dirs: children };
        proof {
            lemma_children_len(run, n_dirs as nat);
            assert forall|t: int| 0 <= t < n_dirs implies r@.dirs[t] == spec_children(
                run,
                n_dirs as nat,
            )[t] by {
                lemma_children_index(run, n_dirs as nat, t);
                assert(children@[t]@ == spec_build_tree(
                    run_child_state(run, t),
                    run_child_budget(run, t),
                ));
                assert(r@.dirs[t] == children@[t]@);
            }
            assert(r@.dirs =~= spec_children(run, n_dirs as nat));
            let m = spec_build_tree(*state, file_budget);
            assert(m.dirs == spec_children(run, n_dirs as nat));
            assert(r@.files == m.files);
            assert(r@ =~= m);
        }
        r
    }
}

/// An upper bound under which a node's own file count surely stays: the
/// budget where there is one, no constraint otherwise.
pub open spec fn spec_budget_bound(file_budget: Option<usize>) -> usize {
    match file_budget {
        Option::None => usize::MAX,
        Option::Some(b) => b,
    }
}

/// A sibling run's plan sequence holds one plan per child built so far.
pub proof fn lemma_children_len(run: SiblingRun, k: nat)
    ensures
        spec_children(run, k).len() == k,
    decreases k,
{
    if k > 0 {
        lemma_children_len(run, (k - 1) as nat);
    }
}

/// Element `t` of a sibling run's plan sequence is the plan of child `t`.
pub proof fn lemma_children_index(run: SiblingRun, k: nat, t: int)
    requires
        0 <= t < k,
    ensures
        spec_children(run, k).len() == k,
        spec_children(run, k)[t] == spec_build_tree(
            run_child_state(run, t),
            run_child_budget(run, t),
        ),
    decreases k,
{
    lemma_children_len(run, k);
    if t < k - 1 {
        lemma_children_index(run, (k - 1) as nat, t);
    }
}

/// A planned file run holds one entry per file.
pub proof fn lemma_spec_files_len(k: nat, bytes_per_file: usize, state: Seq<u32>)
    ensures
        spec_files(k, bytes_per_file, state).0.len() == k,
    decreases k,
{
    if k > 0 {
        lemma_spec_files_len((k - 1) as nat, bytes_per_file, state);
    }
}

/// Appending a sibling adds its file total to the run's.
pub proof fn lemma_total_files_seq_push(s: Seq<DirModel>, x: DirModel)
    ensures
        total_files_seq(s.push(x)) == total_files_seq(s) + total_files(x),
    decreases s,
{
    if s.len() == 0 {
        assert(s.push(x).subrange(1, s.push(x).len() as int) =~= Seq::<DirModel>::empty());
        assert(s.push(x)[0] == x);
        assert(s =~= Seq::<DirModel>::empty());
    } else {
        assert(s.push(x).subrange(1, s.push(x).len() as int) =~= s.subrange(
            1,
            s.len() as int,
        ).push(x));
        assert(s.push(x)[0] == s[0]);
        lemma_total_files_seq_push(s.subrange(1, s.len() as int), x);
    }
}

/// Appending a sibling deepens the run at most to that sibling's own depth.
pub proof fn lemma_max_depth_seq_push(s: Seq<DirModel>, x: DirModel)
    ensures
        max_depth_seq(s.push(x)) == if tree_depth(x) >= max_depth_seq(s) {
            tree_depth(x)
        } else {
            max_depth_seq(s)
        },
    decreases s,
{
    if s.len() == 0 {
        assert(s.push(x).subrange(1, s.push(x).len() as int) =~= Seq::<DirModel>::empty());
        assert(s.push(x)[0] == x);
        assert(s =~= Seq::<DirModel>::empty());
    } else {
        assert(s.push(x).subrange(1, s.push(x).len() as int) =~= s.subrange(
            1,
            s.len() as int,
        ).push(x));
        assert(s.push(x)[0] == s[0]);
        lemma_max_depth_seq_push(s.subrange(1, s.len() as int), x);
    }
}

/// Depth bound: a tree grown from a node state nests at most `max_depth`
/// directories below that node, whatever the seed and whatever the budget.
pub proof fn lemma_depth_bound(state: GeneratorState, file_budget: Option<usize>)
    ensures
        tree_depth(spec_build_tree(state, file_budget)) <= state.max_depth,
    decreases state.max_depth, 0int, 0int,
{
    if state.max_depth > 0 {
        let st0 = xorshift_init(state.seed@);
        let (sampled, st1) = spec_sample(state.files_per_dir, st0);
        let (n_dirs, st2) = spec_sample(state.dirs_per_dir, st1);
        let own = spec_own_files(file_budget, sampled, n_dirs);
        let (seeds, st3) = spec_seed_run(n_dirs as nat, st2);
        let run = spec_run_of(state, n_dirs, seeds, file_budget, own);
        lemma_children_depth(run, n_dirs as nat);
    }
}

/// Depth bound over a sibling run: no sibling subtree nests deeper than the
/// run's depth.
pub proof fn lemma_children_depth(run: SiblingRun, k: nat)
    ensures
        max_depth_seq(spec_children(run, k)) <= run.depth,
    decreases run.depth, 1int, k,
{
    if k > 0 {
        lemma_children_depth(run, (k - 1) as nat);
        let x = spec_build_tree(run_child_state(run, k - 1), run_child_budget(run, k - 1));
        lemma_depth_bound(run_child_state(run, k - 1), run_child_budget(run, k - 1));
        lemma_max_depth_seq_push(spec_children(run, (k - 1) as nat), x);
    }
}

/// Exact file count: a tree grown under a file budget holds exactly that many
/// files, whatever the seed, the parameters and the depth.
pub proof fn lemma_exact_files(state: GeneratorState, budget: usize)
    ensures
        total_files(spec_build_tree(state, Option::Some(budget))) == budget,
    decreases state.max_depth, 0int, 0int,
{
    let file_budget = Option::Some(budget);
    let st0 = xorshift_init(state.seed@);
    let (sampled, st1) = spec_sample(state.files_per_dir, st0);
    let (n_dirs, st2) = if state.max_depth == 0 {
        (0usize, st1)
    } else {
        spec_sample(state.dirs_per_dir, st1)
    };
    let own = spec_own_files(file_budget, sampled, n_dirs);
    let (seeds, st3) = spec_seed_run(n_dirs as nat, st2);
    lemma_spec_files_len(own as nat, state.bytes_per_file, st3);
    if state.max_depth > 0 && n_dirs > 0 {
        let run = spec_run_of(state, n_dirs, seeds, file_budget, own);
        vstd::arithmetic::div_mod::lemma_fundamental_div_mod(run.rem as int, n_dirs as int);
        lemma_children_files(run, n_dirs as nat);
    }
}

/// The sizes that one directory's files take under a byte budget, walking the
/// files in order: the globally last file (remaining count one) takes the
/// whole remaining budget; every other file keeps its sampled size, capped by
/// what is left. Returns the files, the budget left and the count left.
pub open spec fn spec_assign_sizes(files: Seq<FilePlan>, budget: usize, k: nat) -> (
    Seq<FilePlan>,
    usize,
    nat,
)
    decreases files,
{
    if files.len() == 0 {
        (files, budget, k)
    } else {
        let f = files[0];
        let size = if k == 1 {
            budget
        } else if f.size <= budget {
            f.size
        } else {
            budget
        };
        let k1 = if k == 0 {
            0
        } else {
            (k - 1) as nat
        };
        let (rest, b2, k2) = spec_assign_sizes(
            files.subrange(1, files.len() as int),
            (budget - size) as usize,
            k1,
        );
        (seq![FilePlan { size, seed: f.seed }] + rest, b2, k2)
    }
}

/// The tree with its file sizes corrected to a byte budget, walking the tree
/// in depth-first preorder, together with the budget and global file count
/// left after it.
pub open spec fn spec_reconcile(m: DirModel, budget: usize, k: nat) -> (DirModel, usize, nat)
    decreases m, 0int,
{
    let (files2, b1, k1) = spec_assign_sizes(m.files, budget, k);
    let (dirs2, b2, k2) = spec_reconcile_seq(m.dirs, b1, k1);
    (DirModel { files: files2, dirs: dirs2 }, b2, k2)
}

/// A run of sibling trees with their file sizes corrected, left to right.
pub open spec fn spec_reconcile_seq(s: Seq<DirModel>, budget: usize, k: nat) -> (
    Seq<DirModel>,
    usize,
    nat,
)
    decreases s, 1int,
{
    if s.len() == 0 {
        (s, budget, k)
    } else {
        let (m2, b1, k1) = spec_reconcile(s[0], budget, k);
        let (rest, b2, k2) = spec_reconcile_seq(s.subrange(1, s.len() as int), b1, k1);
        (seq![m2] + rest, b2, k2)
    }
}

/// Correct a plan's file sizes so that they add up to an exact byte budget.
/// `k` is the number of files not yet visited anywhere, this plan's included;
/// at the globally last file the whole remaining budget lands, so the sum is
/// exact whenever the plan holds at least one file.
pub fn reconcile_bytes(plan: &DirPlan, budget: usize, k: usize) -> (res: (DirPlan, usize, usize))
    ensures
        res.0@ == spec_reconcile(plan@, budget, k as nat).0,
        res.1 == spec_reconcile(plan@, budget, k as nat).1,
        res.2 as nat == spec_reconcile(plan@, budget, k as nat).2,
    decreases *plan,
{
    let n_files = plan.files.len();
    let mut files: Vec<FilePlan> = Vec::new();
    let mut b: usize = budget;
    let mut rem: usize = k;
    let mut j: usize = 0;
    proof {
        assert(plan.files@.subrange(0, plan.files@.len() as int) =~= plan.files@);
        assert(Seq::<FilePlan>::empty() + spec_assign_sizes(plan.files@, budget, k as nat).0
            =~= spec_assign_sizes(plan.files@, budget, k as nat).0);
    }
    while j < n_files
        invariant
            0 <= j <= n_files == plan.files@.len(),
            files@.len() == j,
            ({
                let whole = spec_assign_sizes(plan.files@, budget, k as nat);
                let rest = spec_assign_sizes(
                    plan.files@.subrange(j as int, plan.files@.len() as int),
                    b,
                    rem as nat,
                );
                whole.0 == files@ + rest.0 && whole.1 == rest.1 && whole.2 == rest.2
            }),
        decreases n_files - j,
    {
        let f = plan.files[j];
        let size = if rem == 1 {
            b
        } else if f.size <= b {
            f.size
        } else {
            b
        };
        proof {
            let suf = plan.files@.subrange(j as int, plan.files@.len() as int);
            let suf2 = plan.files@.subrange(j as int + 1, plan.files@.len() as int);
            assert(suf[0] == plan.files@[j as int]);
            assert(suf.subrange(1, suf.len() as int) =~= suf2);
            let rem2 = if rem == 0 {
                0nat
            } else {
                (rem - 1) as nat
            };
            let rest = spec_assign_sizes(suf, b, rem as nat);
            let rest2 = spec_assign_sizes(suf2, (b - size) as usize, rem2);
            let newf = FilePlan { size, seed: f.seed };
            assert(rest.0 == seq![newf] + rest2.0);
            assert(files@ + rest.0 =~= files@.push(newf) + rest2.0);
        }
        files.push(FilePlan { size, seed: f.seed });
        b = b - size;
        rem = if rem > 0 {
            rem - 1
        } else {
            0
        };
        j = j + 1;
    }
    proof {
        assert(plan.files@.subrange(plan.files@.len() as int, plan.files@.len() as int)
            =~= Seq::<FilePlan>::empty());
        assert(files@ + Seq::<FilePlan>::empty() =~= files@);
    }
    let ghost b1 = b;
    let ghost rem1 = rem;
    let n_dirs = plan.dirs.len();
    let mut dirs2: Vec<DirPlan> = Vec::new();
    let ghost mut acc: Seq<DirModel> = Seq::<DirModel>::empty();
    let mut i: usize = 0;
    proof {
        assert(plan@.dirs.subrange(0, plan@.dirs.len() as int) =~= plan@.dirs);
        assert(Seq::<DirModel>::empty() + spec_reconcile_seq(plan@.dirs, b1, rem1 as nat).0
            =~= spec_reconcile_seq(plan@.dirs, b1, rem1 as nat).0);
    }
    while i < n_dirs
        invariant
            0 <= i <= n_dirs == plan.dirs@.len(),
            dirs2@.len() == i,
            acc.len() == i,
            forall|t: int| 0 <= t < i ==> #[trigger] dirs2@[t]@ == acc[t],
            ({
                let whole = spec_reconcile_seq(plan@.dirs, b1, rem1 as nat);
                let rest = spec_reconcile_seq(
                    plan@.dirs.subrange(i as int, plan@.dirs.len() as int),
                    b,
                    rem as nat,
                );
                whole.0 == acc + rest.0 && whole.1 == rest.1 && whole.2 == rest.2
            }),
        decreases n_dirs - i,
    {
        let child = &plan.dirs[i];
        proof {
            assert(*child == plan.dirs@[i as int]);
            assert(plan@.dirs[i as int] == plan.dirs@[i as int]@);
        }
        let cr = reconcile_bytes(child, b, rem);
        let (c2, cb, ck) = cr;
        proof {
            let suf = plan@.dirs.subrange(i as int, plan@.dirs.len() as int);
            let suf2 = plan@.dirs.subrange(i as int + 1, plan@.dirs.len() as int);
            assert(suf[0] == plan@.dirs[i as int]);
            assert(suf.subrange(1, suf.len() as int) =~= suf2);
            let rest = spec_reconcile_seq(suf, b, rem as nat);
            let rest2 = spec_reconcile_seq(suf2, cb, ck as nat);
            assert(rest.0 == seq![c2@] + rest2.0);
            assert(acc + rest.0 =~= acc.push(c2@) + rest2.0);
            acc = acc.push(c2@);
        }
        dirs2.push(c2);
        b = cb;
        rem = ck;
        i = i + 1;
    }
    proof {
        assert(plan@.dirs.subrange(plan@.dirs.len() as int, plan@.dirs.len() as int)
            =~= Seq::<DirModel>::empty());
        assert(acc + Seq::<DirModel>::empty() =~= acc);
    }
    let r = DirPlan { files, dirs: dirs2 };
    proof {
        assert forall|t: int| 0 <= t < r@.dirs.len() implies r@.dirs[t] == acc[t] by {
            assert(dirs2@[t]@ == acc[t]);
        }
        assert(r@.dirs =~= acc);
        assert(r@ =~= spec_reconcile(plan@, budget, k as nat).0);
    }
    (r, b, rem)
}

/// What one directory's files pass preserves: one entry per file, the budget
/// only ever shrinks by what the files take, and once the globally last file
/// has been passed the budget is fully spent.
pub proof fn lemma_assign_sizes(files: Seq<FilePlan>, budget: usize, k: nat)
    requires
        k >= files.len(),
    ensures
        ({
            let (f2, b2, k2) = spec_assign_sizes(files, budget, k);
            &&& f2.len() == files.len()
            &&& k2 == k - files.len()
            &&& b2 <= budget
            &&& own_bytes(f2) == budget - b2
            &&& (k > 0 && k2 == 0) ==> b2 == 0
        }),
    decreases files,
{
    if files.len() > 0 {
        let f = files[0];
        let size: usize = if k == 1 {
            budget
        } else if f.size <= budget {
            f.size
        } else {
            budget
        };
        let tail = files.subrange(1, files.len() as int);
        lemma_assign_sizes(tail, (budget - size) as usize, (k - 1) as nat);
        let (f2, b2, k2) = spec_assign_sizes(files, budget, k);
        let (rest, rb, rk) = spec_assign_sizes(tail, (budget - size) as usize, (k - 1) as nat);
        assert(f2 == seq![FilePlan { size, seed: f.seed }] + rest);
        assert(f2[0] == (FilePlan { size, seed: f.seed }));
        assert(f2.subrange(1, f2.len() as int) =~= rest);
        assert(own_bytes(f2) == size + own_bytes(rest));
    }
}

/// What correcting one tree preserves: every aggregate count but the byte
/// sizes, the budget only shrinking by what the tree takes, and a spent
/// budget once the globally last file lies behind.
pub proof fn lemma_reconcile(m: DirModel, budget: usize, k: nat)
    requires
        k >= total_files(m),
    ensures
        ({
            let (m2, b2, k2) = spec_reconcile(m, budget, k);
            &&& k2 == k - total_files(m)
            &&& b2 <= budget
            &&& total_bytes(m2) == budget - b2
            &&& total_files(m2) == total_files(m)
            &&& total_dirs(m2) == total_dirs(m)
            &&& tree_depth(m2) == tree_depth(m)
            &&& (k > 0 && k2 == 0) ==> b2 == 0
        }),
    decreases m, 0int,
{
    lemma_assign_sizes(m.files, budget, k);
    let (files2, b1, k1) = spec_assign_sizes(m.files, budget, k);
    lemma_reconcile_seq(m.dirs, b1, k1);
}

/// What correcting a run of sibling trees, left to right, preserves.
pub proof fn lemma_reconcile_seq(s: Seq<DirModel>, budget: usize, k: nat)
    requires
        k >= total_files_seq(s),
    ensures
        ({
            let (s2, b2, k2) = spec_reconcile_seq(s, budget, k);
            &&& s2.len() == s.len()
            &&& k2 == k - total_files_seq(s)
            &&& b2 <= budget
            &&& total_bytes_seq(s2) == budget - b2
            &&& total_files_seq(s2) == total_files_seq(s)
            &&& total_dirs_seq(s2) == total_dirs_seq(s)
            &&& max_depth_seq(s2) == max_depth_seq(s)
            &&& (k > 0 && k2 == 0) ==> b2 == 0
        }),
    decreases s, 1int,
{
    if s.len() > 0 {
        let tail = s.subrange(1, s.len() as int);
        lemma_reconcile(s[0], budget, k);
        let (m2, b1, k1) = spec_reconcile(s[0], budget, k);
        lemma_reconcile_seq(tail, b1, k1);
        let (rest, b2, k2) = spec_reconcile_seq(tail, b1, k1);
        let (s2, sb, sk) = spec_reconcile_seq(s, budget, k);
        assert(s2 == seq![m2] + rest);
        assert(s2[0] == m2);
        assert(s2.subrange(1, s2.len() as int) =~= rest);
    }
}

/// A files pass keeps one entry per file, whatever the budget and count.
pub proof fn lemma_assign_sizes_len(files: Seq<FilePlan>, budget: usize, k: nat)
    ensures
        spec_assign_sizes(files, budget, k).0.len() == files.len(),
    decreases files,
{
    if files.len() > 0 {
        let f = files[0];
        let size: usize = if k == 1 {
            budget
        } else if f.size <= budget {
            f.size
        } else {
            budget
        };
        let k1 = if k == 0 {
            0nat
        } else {
            (k - 1) as nat
        };
        lemma_assign_sizes_len(files.subrange(1, files.len() as int), (budget - size) as usize, k1);
    }
}

/// Correcting sizes never changes a tree's shape: its file and directory
/// counts and its depth stay as they were, whatever the budget and count.
pub proof fn lemma_reconcile_shape(m: DirModel, budget: usize, k: nat)
    ensures
        ({
            let (m2, b2, k2) = spec_reconcile(m, budget, k);
            &&& total_files(m2) == total_files(m)
            &&& total_dirs(m2) == total_dirs(m)
            &&& tree_depth(m2) == tree_depth(m)
        }),
    decreases m, 0int,
{
    lemma_assign_sizes_len(m.files, budget, k);
    let (files2, b1, k1) = spec_assign_sizes(m.files, budget, k);
    lemma_reconcile_seq_shape(m.dirs, b1, k1);
}

/// Correcting sizes never changes the shape of a run of sibling trees.
pub proof fn lemma_reconcile_seq_shape(s: Seq<DirModel>, budget: usize, k: nat)
    ensures
        ({
            let (s2, b2, k2) = spec_reconcile_seq(s, budget, k);
            &&& s2.len() == s.len()
            &&& total_files_seq(s2) == total_files_seq(s)
            &&& total_dirs_seq(s2) == total_dirs_seq(s)
            &&& max_depth_seq(s2) == max_depth_seq(s)
        }),
    decreases s, 1int,
{
    if s.len() > 0 {
        let tail = s.subrange(1, s.len() as int);
        lemma_reconcile_shape(s[0], budget, k);
        let (m2, b1, k1) = spec_reconcile(s[0], budget, k);
        lemma_reconcile_seq_shape(tail, b1, k1);
        let (rest, b2, k2) = spec_reconcile_seq(tail, b1, k1);
        let (s2, sb, sk) = spec_reconcile_seq(s, budget, k);
        assert(s2 == seq![m2] + rest);
        assert(s2[0] == m2);
        assert(s2.subrange(1, s2.len() as int) =~= rest);
    }
}

/// Exact byte count: correcting a plan that holds at least one file to a byte
/// budget makes its file sizes add up to exactly that budget, while keeping
/// every file and directory count and the tree's depth as they were.
pub proof fn lemma_exact_bytes(m: DirModel, budget: usize)
    requires
        total_files(m) >= 1,
    ensures
        ({
            let (m2, b2, k2) = spec_reconcile(m, budget, total_files(m));
            &&& total_bytes(m2) == budget
            &&& total_files(m2) == total_files(m)
            &&& total_dirs(m2) == total_dirs(m)
            &&& tree_depth(m2) == tree_depth(m)
        }),
{
    lemma_reconcile(m, budget, total_files(m));
}

/// Exact file count over a sibling run: the first `k` siblings together hold
/// `k` equal shares of the remaining budget, the division remainder included
/// once all `n` are counted.
pub proof fn lemma_children_files(run: SiblingRun, k: nat)
    requires
        run.budgeted,
        1 <= run.n,
        k <= run.n,
    ensures
        total_files_seq(spec_children(run, k)) == if k == run.n {
            run.rem as int
        } else {
            k * ((run.rem as int) / (run.n as int))
        },
    decreases run.depth, 1int, k,
{
    let q = (run.rem as int) / (run.n as int);
    let m = (run.rem as int) % (run.n as int);
    vstd::arithmetic::div_mod::lemma_fundamental_div_mod(run.rem as int, run.n as int);
    assert(q + m <= run.rem) by (nonlinear_arith)
        requires
            run.rem as int == (run.n as int) * q + m,
            run.n >= 1,
            q >= 0,
            m >= 0,
    ;
    if k > 0 {
        lemma_children_files(run, (k - 1) as nat);
        let x = spec_build_tree(run_child_state(run, k - 1), run_child_budget(run, k - 1));
        lemma_exact_files(run_child_state(run, k - 1), spec_child_budget(run.rem, run.n, k - 1));
        lemma_total_files_seq_push(spec_children(run, (k - 1) as nat), x);
        assert(total_files_seq(spec_children(run, k)) == total_files_seq(
            spec_children(run, (k - 1) as nat),
        ) + total_files(x));
        assert(total_files(x) == spec_child_budget(run.rem, run.n, k - 1));
        if k == run.n {
            assert(spec_child_budget(run.rem, run.n, k - 1) == q + m);
            assert(total_files_seq(spec_children(run, (k - 1) as nat)) == (k - 1) * q);
            assert((k - 1) * q + (q + m) == k * q + m) by (nonlinear_arith);
            assert(k * q + m == run.rem);
        } else {
            assert(spec_child_budget(run.rem, run.n, k - 1) == q);
            assert(total_files_seq(spec_children(run, (k - 1) as nat)) == (k - 1) * q);
            assert((k - 1) * q + q == k * q) by (nonlinear_arith);
            assert(total_files_seq(spec_children(run, k)) == k * q);
        }
    } else {
        assert(total_files_seq(spec_children(run, 0)) == 0);
        assert(k * q == 0) by (nonlinear_arith)
            requires
                k == 0,
        ;
    }
}

} // verus!
