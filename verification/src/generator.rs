//! Configuration resolution and tree generation.
//!
//! [`Generate`] holds the user-facing targets. [`validated_options`] checks
//! them and derives the per-directory statistical parameters of a
//! [`Configuration`], and [`generate`] grows the whole tree plan from it,
//! reconciling exact targets where they are asked for. Everything here is a
//! deterministic function of the targets, so a tree can be reproduced from
//! its parameters alone; writing the planned directories and files to disk is
//! left to the caller.

use vstd::prelude::*;

use vstd::arithmetic::power::pow;

use crate::plan::{
    build_tree, lemma_depth_bound, lemma_exact_files, lemma_reconcile, lemma_reconcile_shape,
    own_bytes, reconcile_bytes, spec_build_tree, spec_reconcile, total_bytes, total_bytes_seq,
    total_dirs, total_dirs_seq, total_files, total_files_seq, tree_depth, DirModel, DirPlan,
    GeneratorState,
};
use crate::rng::{next_seed, prng_from_u64, spec_next_seed, xorshift_init_u64};
use crate::sample::clamp_to_usize;

verus! {

/// Raising both bases keeps the order of powers, and a power of a
/// non-negative base is non-negative.
proof fn lemma_pow_base_increases(a: nat, b: nat, e: nat)
    requires
        a <= b,
    ensures
        0 <= pow(a as int, e) <= pow(b as int, e),
    decreases e,
{
    reveal(pow);
    if e > 0 {
        lemma_pow_base_increases(a, b, (e - 1) as nat);
        assert((a as int) * pow(a as int, (e - 1) as nat) <= (b as int) * pow(
            b as int,
            (e - 1) as nat,
        ) && 0 <= (a as int) * pow(a as int, (e - 1) as nat)) by (nonlinear_arith)
            requires
                0 <= a <= b,
                0 <= pow(a as int, (e - 1) as nat) <= pow(b as int, (e - 1) as nat),
        ;
    }
}

/// Whether `base` raised to `e` stays within `limit`.
fn pow_at_most(base: usize, e: u32, limit: u128) -> (r: bool)
    requires
        base >= 1,
    ensures
        r == (pow(base as int, e as nat) <= limit),
{
    if base == 1 {
        proof {
            vstd::arithmetic::power::lemma1_pow(e as nat);
        }
        return limit >= 1;
    }
    if limit == 0 {
        proof {
            vstd::arithmetic::power::lemma_pow_positive(base as int, e as nat);
        }
        return false;
    }
    proof {
        reveal(pow);
        assert(pow(base as int, 0) == 1);
    }
    let mut acc: u128 = 1;
    let mut i: u32 = 0;
    while i < e
        invariant
            base >= 2,
            0 <= i <= e,
            acc == pow(base as int, i as nat),
            acc <= limit,
        decreases e - i,
    {
        if acc > limit / (base as u128) {
            proof {
                reveal(pow);
                vstd::arithmetic::div_mod::lemma_fundamental_div_mod(
                    limit as int,
                    base as int,
                );
                assert((acc as int) * (base as int) > limit) by (nonlinear_arith)
                    requires
                        acc as int >= (limit as int) / (base as int) + 1,
                        limit as int == (base as int) * ((limit as int) / (base as int)) + (
                        limit as int) % (base as int),
                        (limit as int) % (base as int) < base as int,
                        base >= 1,
                ;
                vstd::arithmetic::power::lemma_pow_increases(
                    base as nat,
                    (i + 1) as nat,
                    e as nat,
                );
                assert(pow(base as int, (i + 1) as nat) == (base as int) * pow(
                    base as int,
                    i as nat,
                ));
                assert(pow(base as int, e as nat) > limit);
            }
            return false;
        }
        proof {
            reveal(pow);
            vstd::arithmetic::div_mod::lemma_fundamental_div_mod(limit as int, base as int);
            assert((acc as int) * (base as int) <= limit) by (nonlinear_arith)
                requires
                    acc as int <= (limit as int) / (base as int),
                    limit as int == (base as int) * ((limit as int) / (base as int)) + (
                    limit as int) % (base as int),
                    (limit as int) % (base as int) >= 0,
                    base >= 1,
                    acc >= 0,
            ;
            assert(pow(base as int, (i + 1) as nat) == (base as int) * pow(
                base as int,
                i as nat,
            ));
        }
        acc = acc * (base as u128);
        i = i + 1;
    }
    acc <= limit
}

/// `base` raised to `e`, where the result is known to stay within `bound`.
fn pow_within(base: usize, e: u32, bound: u128) -> (r: u128)
    requires
        base >= 1,
        pow(base as int, e as nat) <= bound,
    ensures
        r == pow(base as int, e as nat),
{
    proof {
        reveal(pow);
        assert(pow(base as int, 0) == 1);
    }
    let mut acc: u128 = 1;
    let mut i: u32 = 0;
    while i < e
        invariant
            base >= 1,
            0 <= i <= e,
            acc == pow(base as int, i as nat),
            pow(base as int, e as nat) <= bound,
        decreases e - i,
    {
        proof {
            reveal(pow);
            vstd::arithmetic::power::lemma_pow_increases(base as nat, (i + 1) as nat, e as nat);
            lemma_pow_base_increases(1, base as nat, (i + 1) as nat);
            assert(pow(base as int, (i + 1) as nat) == (base as int) * pow(
                base as int,
                i as nat,
            ));
        }
        acc = acc * (base as u128);
        i = i + 1;
    }
    acc
}

/// `f` is the integer `m`-th root of `d`, rounded down.
pub open spec fn is_floor_root(f: usize, d: usize, m: u32) -> bool {
    &&& f >= 1
    &&& pow(f as int, m as nat) <= d
    &&& pow(f as int + 1, m as nat) > d
}

/// Whether the floor root `f` of `d` rounds up to `f + 1`: the next power
/// lies strictly closer to `d` than `f`'s own.
pub open spec fn rounds_up(f: usize, d: usize, m: u32) -> bool {
    pow(f as int + 1, m as nat) - d < d - pow(f as int, m as nat)
}

/// `r` is the integer `m`-th root of `d`, rounded to the nearest integer.
pub open spec fn is_nearest_root(r: usize, d: usize, m: u32) -> bool {
    ||| (is_floor_root(r, d, m) && !rounds_up(r, d, m))
    ||| (r >= 2 && is_floor_root((r - 1) as usize, d, m) && rounds_up((r - 1) as usize, d, m))
}

/// A number has only one floor root.
pub proof fn lemma_floor_root_unique(f1: usize, f2: usize, d: usize, m: u32)
    requires
        is_floor_root(f1, d, m),
        is_floor_root(f2, d, m),
    ensures
        f1 == f2,
{
    if f1 < f2 {
        lemma_pow_base_increases((f1 + 1) as nat, f2 as nat, m as nat);
    }
    if f2 < f1 {
        lemma_pow_base_increases((f2 + 1) as nat, f1 as nat, m as nat);
    }
}

/// A number has only one nearest root.
pub proof fn lemma_nearest_root_unique(r1: usize, r2: usize, d: usize, m: u32)
    requires
        is_nearest_root(r1, d, m),
        is_nearest_root(r2, d, m),
    ensures
        r1 == r2,
{
    if is_floor_root(r1, d, m) && !rounds_up(r1, d, m) {
        if is_floor_root(r2, d, m) {
            lemma_floor_root_unique(r1, r2, d, m);
        } else {
            lemma_floor_root_unique(r1, (r2 - 1) as usize, d, m);
        }
    } else {
        if is_floor_root(r2, d, m) {
            lemma_floor_root_unique((r1 - 1) as usize, r2, d, m);
        } else {
            lemma_floor_root_unique((r1 - 1) as usize, (r2 - 1) as usize, d, m);
        }
    }
}

/// The `m`-th root of `d`, rounded to the nearest integer: the expected
/// per-directory fan-out `x` solving `x^m = d`.
pub fn nth_root(d: usize, m: u32) -> (r: usize)
    requires
        d >= 1,
        m >= 1,
    ensures
        is_nearest_root(r, d, m),
        r >= 1,
{
    proof {
        vstd::arithmetic::power::lemma1_pow(m as nat);
        vstd::arithmetic::power::lemma_pow1(d as int + 1);
        vstd::arithmetic::power::lemma_pow_increases((d + 1) as nat, 1, m as nat);
    }
    let mut lo: usize = 1;
    let mut hi: usize = d;
    while lo < hi
        invariant
            1 <= lo <= hi <= d,
            pow(lo as int, m as nat) <= d,
            pow(hi as int + 1, m as nat) > d,
            m >= 1,
        decreases hi - lo,
    {
        let mid = lo + (hi - lo + 1) / 2;
        if pow_at_most(mid, m, d as u128) {
            lo = mid;
        } else {
            hi = mid - 1;
        }
    }
    let f = lo;
    let fp = pow_within(f, m, d as u128);
    if fp == d as u128 {
        // an exact root never rounds up
        return f;
    }
    proof {
        vstd::arithmetic::power::lemma_pow1(f as int);
        vstd::arithmetic::power::lemma_pow_increases(f as nat, 1, m as nat);
    }
    let t: u128 = 2 * (d as u128) - fp;
    if pow_at_most(f + 1, m, t - 1) {
        // the next power lies strictly closer to d than f's own
        f + 1
    } else {
        f
    }
}

/// A generation request: the user-facing targets, before validation.
///
/// `num_files` must be positive, and a given `file_to_dir_ratio` must be
/// positive and no larger than `num_files`. With `files_exact` or
/// `bytes_exact` the matching target is met precisely; otherwise targets are
/// statistical means.
#[derive(Clone, Copy, PartialEq, Eq, Debug)]
pub struct Generate {
    pub num_files: usize,
    pub num_bytes: usize,
    pub max_depth: u32,
    pub file_to_dir_ratio: Option<usize>,
    pub entropy: u64,
    pub files_exact: bool,
    pub bytes_exact: bool,
}

impl Generate {
    /// A request with the given core targets: approximate mode, no file
    /// content.
    pub fn new(
        num_files: usize,
        max_depth: u32,
        file_to_dir_ratio: Option<usize>,
        entropy: u64,
    ) -> (r: Generate)
        ensures
            r == (Generate {
                num_files,
                num_bytes: 0usize,
                max_depth,
                file_to_dir_ratio,
                entropy,
                files_exact: false,
                bytes_exact: false,
            }),
    {
        Generate {
            num_files,
            num_bytes: 0,
            max_depth,
            file_to_dir_ratio,
            entropy,
            files_exact: false,
            bytes_exact: false,
        }
    }

    /// The same request, with a byte volume target.
    pub fn num_bytes(self, num_bytes: usize) -> (r: Generate)
        ensures
            r == (Generate { num_bytes, ..self }),
    {
        Generate { num_bytes, ..self }
    }

    /// The same request, asking for the file count to be met precisely.
    pub fn files_exact(self, files_exact: bool) -> (r: Generate)
        ensures
            r == (Generate { files_exact, ..self }),
    {
        Generate { files_exact, ..self }
    }

    /// The same request, asking for the byte volume to be met precisely.
    pub fn bytes_exact(self, bytes_exact: bool) -> (r: Generate)
        ensures
            r == (Generate { bytes_exact, ..self }),
    {
        Generate { bytes_exact, ..self }
    }
}

/// Why a request was rejected, always before any filesystem work.
#[derive(Clone, Copy, PartialEq, Eq, Structural, Debug)]
pub enum GenerateError {
    /// The file-to-dir ratio exceeds the number of files to generate.
    InvalidRatio { ratio: usize, files: usize },
    /// The root directory already exists and is not empty.
    NonEmptyRoot,
}

/// The resolved generation parameters: the validated targets together with
/// the derived per-directory means that the sampler draws around.
#[derive(Clone, Copy, PartialEq, Eq, Debug)]
pub struct Configuration {
    pub files: usize,
    pub bytes: usize,
    pub files_exact: bool,
    pub bytes_exact: bool,
    pub files_per_dir: usize,
    pub dirs_per_dir: usize,
    pub bytes_per_file: usize,
    pub max_depth: u32,
    pub entropy: u64,
    pub informational_dirs_per_dir: usize,
    pub informational_total_dirs: usize,
}

/// The file-to-dir ratio in force: the given one, or one directory per
/// thousand files, at least one.
pub open spec fn spec_ratio(o: Generate) -> usize {
    match o.file_to_dir_ratio {
        Option::Some(r) => r,
        Option::None => if o.num_files / 1000 >= 1 {
            o.num_files / 1000
        } else {
            1usize
        },
    }
}

/// `a / b`, rounded to the nearest integer, halves up.
pub open spec fn spec_rounded_div(a: usize, b: usize) -> int
    recommends
        b >= 1,
{
    (a + (b as int) / 2) / (b as int)
}

/// Divide, rounding to the nearest integer.
fn rounded_div(a: usize, b: usize) -> (r: usize)
    requires
        b >= 1,
    ensures
        r == spec_rounded_div(a, b),
        r <= a,
{
    let num: u128 = (a as u128) + (b as u128) / 2;
    let q: u128 = num / (b as u128);
    proof {
        vstd::arithmetic::div_mod::lemma_fundamental_div_mod(num as int, b as int);
        assert(q <= a) by (nonlinear_arith)
            requires
                num as int == (b as int) * (q as int) + (num as int) % (b as int),
                0 <= (num as int) % (b as int),
                num as int <= a as int + (b as int) / 2,
                (b as int) / 2 < b as int,
                b >= 1,
                q >= 0,
        ;
    }
    q as usize
}

/// The expected bytes per file: the byte target spread over the file target,
/// at least one byte wherever content is asked for at all.
pub open spec fn spec_bytes_per_file(o: Generate) -> usize
    recommends
        o.num_files >= 1,
{
    if o.num_bytes == 0 {
        0usize
    } else if spec_rounded_div(o.num_bytes, o.num_files) >= 1 {
        spec_rounded_div(o.num_bytes, o.num_files) as usize
    } else {
        1usize
    }
}

/// What a valid configuration derived from a request looks like. All fields
/// are fixed directly by the request but the fan-out mean, which is pinned as
/// the nearest integer root; [`lemma_reproducible`] shows the whole record is
/// still unique.
pub open spec fn spec_config_ok(o: Generate, c: Configuration) -> bool {
    &&& c.files == o.num_files
    &&& c.bytes == o.num_bytes
    &&& c.files_exact == o.files_exact
    &&& c.bytes_exact == o.bytes_exact
    &&& c.max_depth == o.max_depth
    &&& c.entropy == o.entropy
    &&& c.bytes_per_file == spec_bytes_per_file(o)
    &&& if o.max_depth == 0 {
        &&& c.files_per_dir == o.num_files
        &&& c.dirs_per_dir == 0
        &&& c.informational_dirs_per_dir == 0
        &&& c.informational_total_dirs == 1
    } else {
        let d = spec_rounded_div(o.num_files, spec_ratio(o));
        &&& c.files_per_dir == spec_ratio(o)
        &&& is_nearest_root(c.dirs_per_dir, d as usize, o.max_depth)
        &&& c.informational_dirs_per_dir == c.dirs_per_dir
        &&& c.informational_total_dirs == d
    }
}

/// Check a request and resolve it into a configuration: reject a root that is
/// not empty and a ratio above the file target, then derive the
/// per-directory means: at depth zero everything lives in the root;
/// otherwise the expected total directory count `d` is `files / ratio` and
/// the per-directory fan-out solves `x^max_depth = d`.
pub fn validated_options(options: &Generate, root_empty: bool) -> (r: Result<
    Configuration,
    GenerateError,
>)
    requires
        options.num_files >= 1,
        spec_ratio(*options) >= 1,
    ensures
        (r == Err::<Configuration, GenerateError>(GenerateError::NonEmptyRoot)) <==> !root_empty,
        (r == Err::<Configuration, GenerateError>(
            GenerateError::InvalidRatio {
                ratio: spec_ratio(*options),
                files: options.num_files,
            },
        )) <==> (root_empty && spec_ratio(*options) > options.num_files),
        r is Ok <==> (root_empty && spec_ratio(*options) <= options.num_files),
        r matches Ok(c) ==> spec_config_ok(*options, c),
{
    if !root_empty {
        return Err(GenerateError::NonEmptyRoot);
    }
    let ratio = match options.file_to_dir_ratio {
        Option::Some(r) => r,
        Option::None => {
            let q = options.num_files / 1000;
            if q >= 1 {
                q
            } else {
                1
            }
        },
    };
    if ratio > options.num_files {
        return Err(GenerateError::InvalidRatio { ratio, files: options.num_files });
    }
    let bytes_per_file = if options.num_bytes == 0 {
        0
    } else {
        let q = rounded_div(options.num_bytes, options.num_files);
        if q >= 1 {
            q
        } else {
            1
        }
    };
    if options.max_depth == 0 {
        return Ok(
            Configuration {
                files: options.num_files,
                bytes: options.num_bytes,
                files_exact: options.files_exact,
                bytes_exact: options.bytes_exact,
                files_per_dir: options.num_files,
                dirs_per_dir: 0,
                bytes_per_file,
                max_depth: 0,
                entropy: options.entropy,
                informational_dirs_per_dir: 0,
                informational_total_dirs: 1,
            },
        );
    }
    let d = rounded_div(options.num_files, ratio);
    proof {
        vstd::arithmetic::div_mod::lemma_div_is_ordered(
            ratio as int,
            options.num_files as int,
            ratio as int,
        );
        vstd::arithmetic::div_mod::lemma_div_is_ordered(
            options.num_files as int,
            options.num_files + (ratio as int) / 2,
            ratio as int,
        );
        assert((ratio as int) / (ratio as int) == 1);
    }
    let dirs_per_dir = nth_root(d, options.max_depth);
    Ok(
        Configuration {
            files: options.num_files,
            bytes: options.num_bytes,
            files_exact: options.files_exact,
            bytes_exact: options.bytes_exact,
            files_per_dir: ratio,
            dirs_per_dir,
            bytes_per_file,
            max_depth: options.max_depth,
            entropy: options.entropy,
            informational_dirs_per_dir: dirs_per_dir,
            informational_total_dirs: d,
        },
    )
}

/// Running totals of what a tree holds: plain files, directories, bytes.
/// Merging saturates at `usize`'s range rather than wrapping.
#[derive(Clone, Copy, PartialEq, Eq, Structural, Debug)]
pub struct GeneratorStats {
    pub files: usize,
    pub dirs: usize,
    pub bytes: usize,
}

/// The field-wise saturating sum of two accumulators.
pub open spec fn spec_merge(a: GeneratorStats, b: GeneratorStats) -> GeneratorStats {
    GeneratorStats {
        files: clamp_to_usize(a.files + b.files),
        dirs: clamp_to_usize(a.dirs + b.dirs),
        bytes: clamp_to_usize(a.bytes + b.bytes),
    }
}

/// Saturating addition: the sum, clamped at `usize::MAX`.
fn sat_add(a: usize, b: usize) -> (r: usize)
    ensures
        r == clamp_to_usize(a + b),
{
    if a > usize::MAX - b {
        usize::MAX
    } else {
        a + b
    }
}

impl GeneratorStats {
    /// The aggregator's identity element: nothing counted yet.
    pub fn zero() -> (r: GeneratorStats)
        ensures
            r == (GeneratorStats { files: 0, dirs: 0, bytes: 0 }),
    {
        GeneratorStats { files: 0, dirs: 0, bytes: 0 }
    }

    /// Fold another accumulator in, field-wise.
    pub fn merge(&mut self, rhs: GeneratorStats)
        ensures
            *final(self) == spec_merge(*old(self), rhs),
    {
        self.files = sat_add(self.files, rhs.files);
        self.dirs = sat_add(self.dirs, rhs.dirs);
        self.bytes = sat_add(self.bytes, rhs.bytes);
    }
}

/// Merging is commutative: results may be folded in whatever order the
/// concurrent subtree tasks complete.
pub proof fn lemma_merge_commutes(a: GeneratorStats, b: GeneratorStats)
    ensures
        spec_merge(a, b) == spec_merge(b, a),
{
}

/// Merging is associative: partial sums may be grouped freely.
pub proof fn lemma_merge_associates(a: GeneratorStats, b: GeneratorStats, c: GeneratorStats)
    ensures
        spec_merge(spec_merge(a, b), c) == spec_merge(a, spec_merge(b, c)),
{
}

/// Merging the identity element changes nothing.
pub proof fn lemma_merge_identity(a: GeneratorStats)
    ensures
        spec_merge(a, GeneratorStats { files: 0, dirs: 0, bytes: 0 }) == a,
{
}

/// Count what a plan holds: its files, directories and bytes, each total
/// saturating at `usize`'s range.
pub fn stats_of(plan: &DirPlan) -> (r: GeneratorStats)
    ensures
        r.files == clamp_to_usize(total_files(plan@) as int),
        r.dirs == clamp_to_usize(total_dirs(plan@) as int),
        r.bytes == clamp_to_usize(total_bytes(plan@) as int),
    decreases *plan,
{
    let n_files = plan.files.len();
    let mut bytes: usize = 0;
    let mut j: usize = 0;
    proof {
        assert(plan.files@.subrange(0, plan.files@.len() as int) =~= plan.files@);
    }
    while j < n_files
        invariant
            0 <= j <= n_files == plan.files@.len(),
            clamp_to_usize(own_bytes(plan.files@) as int) == clamp_to_usize(
                bytes + own_bytes(plan.files@.subrange(j as int, plan.files@.len() as int)),
            ),
        decreases n_files - j,
    {
        proof {
            let suf = plan.files@.subrange(j as int, plan.files@.len() as int);
            assert(suf[0] == plan.files@[j as int]);
            assert(suf.subrange(1, suf.len() as int) =~= plan.files@.subrange(
                j as int + 1,
                plan.files@.len() as int,
            ));
        }
        bytes = sat_add(bytes, plan.files[j].size);
        j = j + 1;
    }
    proof {
        assert(plan.files@.subrange(plan.files@.len() as int, plan.files@.len() as int)
            =~= Seq::<crate::plan::FilePlan>::empty());
    }
    let mut files: usize = n_files;
    let mut dirs: usize = 0;
    let n_dirs = plan.dirs.len();
    let mut i: usize = 0;
    proof {
        assert(plan@.dirs.subrange(0, plan@.dirs.len() as int) =~= plan@.dirs);
    }
    while i < n_dirs
        invariant
            0 <= i <= n_dirs == plan@.dirs.len(),
            clamp_to_usize(total_files(plan@) as int) == clamp_to_usize(
                files + total_files_seq(plan@.dirs.subrange(i as int, plan@.dirs.len() as int)),
            ),
            clamp_to_usize(total_dirs(plan@) as int) == clamp_to_usize(
                dirs + (n_dirs - i) + total_dirs_seq(
                    plan@.dirs.subrange(i as int, plan@.dirs.len() as int),
                ),
            ),
            clamp_to_usize(total_bytes(plan@) as int) == clamp_to_usize(
                bytes + total_bytes_seq(plan@.dirs.subrange(i as int, plan@.dirs.len() as int)),
            ),
        decreases n_dirs - i,
    {
        proof {
            let suf = plan@.dirs.subrange(i as int, plan@.dirs.len() as int);
            assert(suf[0] == plan@.dirs[i as int]);
            assert(suf.subrange(1, suf.len() as int) =~= plan@.dirs.subrange(
                i as int + 1,
                plan@.dirs.len() as int,
            ));
            assert(plan@.dirs[i as int] == plan.dirs@[i as int]@);
        }
        let child = &plan.dirs[i];
        let s = stats_of(child);
        files = sat_add(files, s.files);
        dirs = sat_add(dirs, sat_add(s.dirs, 1));
        bytes = sat_add(bytes, s.bytes);
        i = i + 1;
    }
    proof {
        assert(plan@.dirs.subrange(plan@.dirs.len() as int, plan@.dirs.len() as int)
            =~= Seq::<crate::plan::DirModel>::empty());
    }
    GeneratorStats { files, dirs, bytes }
}

/// The modulus of 64-bit wrapping arithmetic.
pub const TWO64: u128 = 0x10000000000000000;

/// The word that seeds the root generator: the targets and the extra entropy
/// mixed together, wrapping modulo `2^64`, so that different configurations
/// start from different streams.
pub open spec fn spec_root_mix(c: Configuration) -> u64 {
    let a = (c.files + c.max_depth) % (TWO64 as int);
    let b = (c.files_per_dir + c.dirs_per_dir) % (TWO64 as int);
    (((a * b) % (TWO64 as int) + c.entropy) % (TWO64 as int)) as u64
}

/// Mix the root seed word from a configuration.
fn root_mix(c: &Configuration) -> (r: u64)
    ensures
        r == spec_root_mix(*c),
{
    let a: u128 = ((c.files as u128) + (c.max_depth as u128)) % TWO64;
    let b: u128 = ((c.files_per_dir as u128) + (c.dirs_per_dir as u128)) % TWO64;
    proof {
        assert(a * b < TWO64 * TWO64) by (nonlinear_arith)
            requires
                0 <= a < TWO64,
                0 <= b < TWO64,
        ;
    }
    let m: u128 = (a * b) % TWO64;
    ((m + (c.entropy as u128)) % TWO64) as u64
}

/// The root node's generator state: the configuration's means and depth, and
/// a seed drawn from a generator that the mixed word seeds.
pub open spec fn spec_initial_state(c: Configuration) -> GeneratorState {
    GeneratorState {
        files_per_dir: c.files_per_dir,
        dirs_per_dir: c.dirs_per_dir,
        bytes_per_file: c.bytes_per_file,
        max_depth: c.max_depth,
        seed: spec_next_seed(xorshift_init_u64(spec_root_mix(c))).0,
    }
}

/// Derive the root node's generator state from a configuration.
fn initial_state(c: &Configuration) -> (r: GeneratorState)
    ensures
        r == spec_initial_state(*c),
{
    let mix = root_mix(c);
    let mut rng = prng_from_u64(mix);
    let seed = next_seed(&mut rng);
    GeneratorState {
        files_per_dir: c.files_per_dir,
        dirs_per_dir: c.dirs_per_dir,
        bytes_per_file: c.bytes_per_file,
        max_depth: c.max_depth,
        seed,
    }
}

/// The plan a configuration grows before any byte reconciliation: sampled
/// throughout, under the exact file budget where one is asked for.
pub open spec fn spec_base_plan(c: Configuration) -> DirModel {
    spec_build_tree(
        spec_initial_state(c),
        if c.files_exact {
            Option::Some(c.files)
        } else {
            Option::<usize>::None
        },
    )
}

/// The plan a configuration finally produces: the base plan, its file sizes
/// corrected to the byte target where that must be exact.
pub open spec fn spec_final_plan(c: Configuration) -> DirModel {
    let base = spec_base_plan(c);
    if c.bytes_exact {
        spec_reconcile(base, c.bytes, clamp_to_usize(total_files(base) as int) as nat).0
    } else {
        base
    }
}

/// A finished generation: the resolved configuration, the complete tree plan,
/// and what the plan holds.
pub struct Generated {
    pub config: Configuration,
    pub plan: DirPlan,
    pub stats: GeneratorStats,
}

/// Resolve a request and grow the whole tree plan from it.
///
/// `root_empty` says whether the root directory is empty (a missing root
/// counts as empty once created); a non-empty root is rejected before any
/// work. On success the plan is the deterministic function of the
/// configuration given by [`spec_final_plan`]: it nests at most `max_depth`
/// deep; under `files_exact` it holds exactly the file target; under
/// `bytes_exact` its sizes add up exactly to the byte target whenever the
/// base plan holds at least one file and no more than `usize::MAX`.
pub fn generate(options: &Generate, root_empty: bool) -> (r: Result<Generated, GenerateError>)
    requires
        options.num_files >= 1,
        spec_ratio(*options) >= 1,
    ensures
        r is Err <==> (!root_empty || spec_ratio(*options) > options.num_files),
        !root_empty ==> (r matches Err(e) && e == GenerateError::NonEmptyRoot),
        (root_empty && spec_ratio(*options) > options.num_files) ==> (r matches Err(e) && e == (
        GenerateError::InvalidRatio { ratio: spec_ratio(*options), files: options.num_files })),
        r matches Ok(g) ==> ({
            &&& spec_config_ok(*options, g.config)
            &&& g.plan@ == spec_final_plan(g.config)
            &&& tree_depth(g.plan@) <= options.max_depth
            &&& (options.files_exact ==> total_files(g.plan@) == options.num_files)
            &&& ((options.bytes_exact && 1 <= total_files(spec_base_plan(g.config))
                <= usize::MAX) ==> total_bytes(g.plan@) == options.num_bytes)
            &&& g.stats.files == clamp_to_usize(total_files(g.plan@) as int)
            &&& g.stats.dirs == clamp_to_usize(total_dirs(g.plan@) as int)
            &&& g.stats.bytes == clamp_to_usize(total_bytes(g.plan@) as int)
        }),
{
    let config = match validated_options(options, root_empty) {
        Ok(c) => c,
        Err(e) => {
            return Err(e);
        },
    };
    let state = initial_state(&config);
    let file_budget = if config.files_exact {
        Option::Some(config.files)
    } else {
        Option::<usize>::None
    };
    let plan = build_tree(&state, file_budget);
    proof {
        lemma_depth_bound(state, file_budget);
        if config.files_exact {
            lemma_exact_files(state, config.files);
        }
    }
    let plan = if config.bytes_exact {
        let counted = stats_of(&plan);
        let reconciled = reconcile_bytes(&plan, config.bytes, counted.files);
        proof {
            let base = spec_base_plan(config);
            lemma_reconcile_shape(base, config.bytes, counted.files as nat);
            if 1 <= total_files(base) <= usize::MAX {
                lemma_reconcile(base, config.bytes, counted.files as nat);
            }
        }
        reconciled.0
    } else {
        plan
    };
    let stats = stats_of(&plan);
    Ok(Generated { config, plan, stats })
}

/// Reproducibility: a request pins its configuration completely, and the tree
/// plan is a function of the configuration, so two generation runs from one
/// request produce identical trees: the same shape, names in the same order,
/// the same file sizes and the same content seeds.
pub proof fn lemma_reproducible(o: Generate, c1: Configuration, c2: Configuration)
    requires
        spec_config_ok(o, c1),
        spec_config_ok(o, c2),
    ensures
        c1 == c2,
        spec_final_plan(c1) == spec_final_plan(c2),
{
    if o.max_depth > 0 {
        let d = spec_rounded_div(o.num_files, spec_ratio(o));
        lemma_nearest_root_unique(c1.dirs_per_dir, c2.dirs_per_dir, d as usize, o.max_depth);
    }
}

} // verus!
