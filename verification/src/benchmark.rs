//! Benchmarks of an agent's work with and without committed state: the
//! operations, how each strategy pays for them, and standard scenarios.

use vstd::prelude::*;
use vstd::string::*;
use crate::base::{EpochId, ResourceId};
use crate::metrics::MetricsSnapshot;
use crate::text::{decimal, str_eq, u64_to_decimal};

verus! {

/// One operation of a benchmark scenario.
#[derive(Debug)]
pub enum BenchmarkOp {
    /// Read a resource.
    Read { resource: ResourceId, size_tokens: u64 },
    /// Search for a symbol or definition.
    Search { query: String, size_tokens: u64 },
    /// Edit a file.
    Edit { target: ResourceId, size_tokens: u64 },
    /// Ask again about something found before.
    RepeatQuery { query: String, resource: ResourceId, size_tokens: u64 },
    /// Commit a reality (with committed state only).
    CommitReality { resource: ResourceId, size_bytes: u64 },
    /// Read committed state (with committed state only).
    ReadState { resource: ResourceId },
}

impl Clone for BenchmarkOp {
    fn clone(&self) -> (r: Self)
        ensures
            r == *self,
    {
        match self {
            BenchmarkOp::Read { resource, size_tokens } => BenchmarkOp::Read { resource: resource.clone(), size_tokens: *size_tokens },
            BenchmarkOp::Search { query, size_tokens } => BenchmarkOp::Search { query: query.clone(), size_tokens: *size_tokens },
            BenchmarkOp::Edit { target, size_tokens } => BenchmarkOp::Edit { target: target.clone(), size_tokens: *size_tokens },
            BenchmarkOp::RepeatQuery { query, resource, size_tokens } => BenchmarkOp::RepeatQuery {
                query: query.clone(),
                resource: resource.clone(),
                size_tokens: *size_tokens,
            },
            BenchmarkOp::CommitReality { resource, size_bytes } => BenchmarkOp::CommitReality { resource: resource.clone(), size_bytes: *size_bytes },
            BenchmarkOp::ReadState { resource } => BenchmarkOp::ReadState { resource: resource.clone() },
        }
    }
}

/// An operation with its texts as character sequences.
pub enum OpView {
    Read(Seq<char>, u64),
    Search(Seq<char>, u64),
    Edit(Seq<char>, u64),
    RepeatQuery(Seq<char>, Seq<char>, u64),
    CommitReality(Seq<char>, u64),
    ReadState(Seq<char>),
}

/// The view of an operation.
pub open spec fn op_view(op: BenchmarkOp) -> OpView {
    match op {
        BenchmarkOp::Read { resource, size_tokens } => OpView::Read(resource@, size_tokens),
        BenchmarkOp::Search { query, size_tokens } => OpView::Search(query@, size_tokens),
        BenchmarkOp::Edit { target, size_tokens } => OpView::Edit(target@, size_tokens),
        BenchmarkOp::RepeatQuery { query, resource, size_tokens } => OpView::RepeatQuery(query@, resource@, size_tokens),
        BenchmarkOp::CommitReality { resource, size_bytes } => OpView::CommitReality(resource@, size_bytes),
        BenchmarkOp::ReadState { resource } => OpView::ReadState(resource@),
    }
}

/// The views of a sequence of operations.
pub open spec fn ops_view(ops: Seq<BenchmarkOp>) -> Seq<OpView> {
    ops.map_values(|op: BenchmarkOp| op_view(op))
}

/// How a run pays for operations.
#[derive(Debug, Clone, Copy, PartialEq, Eq, Structural)]
pub enum Strategy {
    /// Every operation costs inference.
    InferenceOnly,
    /// Inference once; later reads of committed state are free.
    StateCached,
}

/// The totals of a run.
#[derive(Debug, Clone, Copy, PartialEq, Eq, Structural)]
pub struct BenchmarkRun {
    pub strategy: Strategy,
    pub total_inferences: u64,
    pub total_tokens: u64,
    pub state_reads: u64,
    pub reality_commits: u64,
    pub reality_bytes: u64,
}

impl BenchmarkRun {
    /// The run as the metrics of an epoch: its inferences and tokens count
    /// on the side of its strategy, zero on the other.
    pub fn to_snapshot(&self, epoch: EpochId) -> (r: MetricsSnapshot)
        ensures
            r.epoch == epoch,
            r.inference_count_vantage == if self.strategy == Strategy::StateCached { self.total_inferences } else { 0 },
            r.inference_count_baseline == if self.strategy == Strategy::InferenceOnly { self.total_inferences } else { 0 },
            r.state_reads == self.state_reads,
            r.reality_commits == self.reality_commits,
            r.total_tokens_vantage == if self.strategy == Strategy::StateCached { self.total_tokens } else { 0 },
            r.total_tokens_baseline == if self.strategy == Strategy::InferenceOnly { self.total_tokens } else { 0 },
            r.reality_bytes_stored == self.reality_bytes,
    {
        let cached = self.strategy == Strategy::StateCached;
        MetricsSnapshot {
            epoch,
            inference_count_vantage: if cached { self.total_inferences } else { 0 },
            inference_count_baseline: if !cached { self.total_inferences } else { 0 },
            state_reads: self.state_reads,
            reality_commits: self.reality_commits,
            total_tokens_vantage: if cached { self.total_tokens } else { 0 },
            total_tokens_baseline: if !cached { self.total_tokens } else { 0 },
            reality_bytes_stored: self.reality_bytes,
        }
    }
}

/// Totals of a run in progress: inferences, tokens, state reads, commits,
/// stored bytes, and the resources committed so far.
pub type Tally = (nat, nat, nat, nat, nat, Set<Seq<char>>);

/// The totals after one more operation. Reads, searches and edits always
/// cost inference; with committed state an edit also commits its target,
/// at ten bytes per token. A repeated query costs inference unless its
/// resource is committed and state is used. A commit counts only with
/// committed state. A state read falls back to inference at 100 tokens
/// when the resource is not committed or state is not used.
pub open spec fn bench_step(t: Tally, op: OpView, s: Strategy) -> Tally {
    let cached = s == Strategy::StateCached;
    match op {
        OpView::Read(_, n) => (t.0 + 1, t.1 + (n as nat), t.2, t.3, t.4, t.5),
        OpView::Search(_, n) => (t.0 + 1, t.1 + (n as nat), t.2, t.3, t.4, t.5),
        OpView::Edit(target, n) => if cached {
            (t.0 + 1, t.1 + (n as nat), t.2, t.3 + 1, t.4 + (n as nat) * 10, t.5.insert(target))
        } else {
            (t.0 + 1, t.1 + (n as nat), t.2, t.3, t.4, t.5)
        },
        OpView::RepeatQuery(_, r, n) => if cached && t.5.contains(r) {
            (t.0, t.1, t.2 + 1, t.3, t.4, t.5)
        } else {
            (t.0 + 1, t.1 + (n as nat), t.2, t.3, t.4, t.5)
        },
        OpView::CommitReality(_, b) => if cached {
            (t.0, t.1, t.2, t.3 + 1, t.4 + (b as nat), t.5)
        } else {
            t
        },
        OpView::ReadState(r) => if cached && t.5.contains(r) {
            (t.0, t.1, t.2 + 1, t.3, t.4, t.5)
        } else {
            (t.0 + 1, t.1 + 100, t.2, t.3, t.4, t.5)
        },
    }
}

/// The totals after every operation, from zero.
pub open spec fn bench_tally(ops: Seq<OpView>, s: Strategy) -> Tally
    decreases ops.len(),
{
    if ops.len() == 0 {
        (0, 0, 0, 0, 0, Set::empty())
    } else {
        bench_step(bench_tally(ops.drop_last(), s), ops.last(), s)
    }
}

/// The operations that can cost inference: all but commits.
pub open spec fn inferable_ops(ops: Seq<OpView>) -> nat
    decreases ops.len(),
{
    if ops.len() == 0 {
        0
    } else {
        inferable_ops(ops.drop_last()) + if ops.last() is CommitReality { 0nat } else { 1nat }
    }
}

/// The operations that commit state when state is used: edits and commits.
pub open spec fn committing_ops(ops: Seq<OpView>) -> nat
    decreases ops.len(),
{
    if ops.len() == 0 {
        0
    } else {
        committing_ops(ops.drop_last()) + if ops.last() is Edit || ops.last() is CommitReality { 1nat } else { 0nat }
    }
}

/// The bytes committed when state is used: ten per edited token, and each
/// commit's bytes.
pub open spec fn committed_bytes(ops: Seq<OpView>) -> nat
    decreases ops.len(),
{
    if ops.len() == 0 {
        0
    } else {
        committed_bytes(ops.drop_last()) + match ops.last() {
            OpView::Edit(_, n) => (n as nat) * 10,
            OpView::CommitReality(_, b) => b as nat,
            _ => 0nat,
        }
    }
}

/// Every total of the run fits a counter.
pub open spec fn tally_fits(ops: Seq<OpView>, s: Strategy) -> bool {
    let t = bench_tally(ops, s);
    t.0 <= u64::MAX && t.1 <= u64::MAX && t.2 <= u64::MAX && t.3 <= u64::MAX && t.4 <= u64::MAX
}

proof fn lemma_tally_monotone(ops: Seq<OpView>, s: Strategy, k: int)
    requires
        0 <= k <= ops.len(),
    ensures
        ({
            let a = bench_tally(ops.take(k), s);
            let b = bench_tally(ops, s);
            a.0 <= b.0 && a.1 <= b.1 && a.2 <= b.2 && a.3 <= b.3 && a.4 <= b.4
        }),
    decreases ops.len(),
{
    if k == ops.len() {
        assert(ops.take(k) =~= ops);
    } else {
        assert(ops.drop_last().take(k) =~= ops.take(k));
        lemma_tally_monotone(ops.drop_last(), s, k);
    }
}

fn is_committed(committed: &Vec<ResourceId>, r: &ResourceId) -> (b: bool)
    ensures
        b == committed@.map_values(|x: ResourceId| x@).contains(r@),
{
    let ghost vs = committed@.map_values(|x: ResourceId| x@);
    let mut i: usize = 0;
    while i < committed.len()
        invariant
            i <= committed@.len(),
            vs == committed@.map_values(|x: ResourceId| x@),
            forall|j: int| 0 <= j < i ==> vs[j] != r@,
        decreases committed@.len() - i,
    {
        if str_eq(committed[i].0.as_str(), r.0.as_str()) {
            assert(vs[i as int] == r@);
            return true;
        }
        i = i + 1;
    }
    false
}

/// Runs operations under a strategy and totals what they cost.
pub fn execute_benchmark(ops: &[BenchmarkOp], strategy: Strategy) -> (r: BenchmarkRun)
    requires
        tally_fits(ops_view(ops@), strategy),
    ensures
        ({
            let t = bench_tally(ops_view(ops@), strategy);
            &&& r.strategy == strategy
            &&& r.total_inferences == t.0
            &&& r.total_tokens == t.1
            &&& r.state_reads == t.2
            &&& r.reality_commits == t.3
            &&& r.reality_bytes == t.4
        }),
{
    let ghost ov = ops_view(ops@);
    let cached = strategy == Strategy::StateCached;
    let mut total_inferences: u64 = 0;
    let mut total_tokens: u64 = 0;
    let mut state_reads: u64 = 0;
    let mut reality_commits: u64 = 0;
    let mut reality_bytes: u64 = 0;
    let mut committed: Vec<ResourceId> = Vec::new();
    let mut i: usize = 0;
    while i < ops.len()
        invariant
            i <= ops@.len(),
            ov == ops_view(ops@),
            cached == (strategy == Strategy::StateCached),
            tally_fits(ov, strategy),
            ({
                let t = bench_tally(ov.take(i as int), strategy);
                &&& total_inferences == t.0
                &&& total_tokens == t.1
                &&& state_reads == t.2
                &&& reality_commits == t.3
                &&& reality_bytes == t.4
                &&& committed@.map_values(|x: ResourceId| x@).to_set() == t.5
            }),
        decreases ops@.len() - i,
    {
        proof {
            assert(ov.take(i + 1).drop_last() =~= ov.take(i as int));
            assert(ov.take(i + 1).last() == ov[i as int]);
            lemma_tally_monotone(ov, strategy, i + 1);
        }
        let ghost before = committed@.map_values(|x: ResourceId| x@);
        match &ops[i] {
            BenchmarkOp::Read { size_tokens, .. } | BenchmarkOp::Search { size_tokens, .. } => {
                total_inferences = total_inferences + 1;
                total_tokens = total_tokens + *size_tokens;
            },
            BenchmarkOp::Edit { target, size_tokens } => {
                total_inferences = total_inferences + 1;
                total_tokens = total_tokens + *size_tokens;
                if cached {
                    committed.push(target.clone());
                    reality_commits = reality_commits + 1;
                    reality_bytes = reality_bytes + *size_tokens * 10;
                    assert(committed@.map_values(|x: ResourceId| x@) =~= before.push(target@));
                    proof { before.lemma_push_to_set_commute(target@); }
                }
            },
            BenchmarkOp::RepeatQuery { resource, size_tokens, .. } => {
                if cached && is_committed(&committed, resource) {
                    state_reads = state_reads + 1;
                } else {
                    total_inferences = total_inferences + 1;
                    total_tokens = total_tokens + *size_tokens;
                }
            },
            BenchmarkOp::CommitReality { size_bytes, .. } => {
                if cached {
                    reality_commits = reality_commits + 1;
                    reality_bytes = reality_bytes + *size_bytes;
                }
            },
            BenchmarkOp::ReadState { resource } => {
                if cached && is_committed(&committed, resource) {
                    state_reads = state_reads + 1;
                } else {
                    total_inferences = total_inferences + 1;
                    total_tokens = total_tokens + 100;
                }
            },
        }
        i = i + 1;
    }
    assert(ov.take(ops@.len() as int) =~= ov);
    BenchmarkRun { strategy, total_inferences, total_tokens, state_reads, reality_commits, reality_bytes }
}

/// A run that inferred nothing for a record of epoch `i` (counted from
/// zero): the epoch number is `i + 1`.
pub open spec fn run_matches(r: BenchmarkRun, ops: Seq<OpView>, s: Strategy) -> bool {
    let t = bench_tally(ops, s);
    &&& r.strategy == s
    &&& r.total_inferences == t.0
    &&& r.total_tokens == t.1
    &&& r.state_reads == t.2
    &&& r.reality_commits == t.3
    &&& r.reality_bytes == t.4
}

/// Runs each epoch's operations under both strategies; epochs are numbered
/// from one.
pub fn run_multi_epoch_benchmark(per_epoch_ops: Vec<Vec<BenchmarkOp>>) -> (r: Vec<(EpochId, BenchmarkRun, BenchmarkRun)>)
    requires
        forall|i: int| 0 <= i < per_epoch_ops@.len() ==> tally_fits(ops_view(#[trigger] per_epoch_ops@[i]@), Strategy::InferenceOnly)
            && tally_fits(ops_view(per_epoch_ops@[i]@), Strategy::StateCached),
    ensures
        r@.len() == per_epoch_ops@.len(),
        forall|i: int| 0 <= i < r@.len() ==> (#[trigger] r@[i]).0 == EpochId((i + 1) as u64)
            && run_matches(r@[i].1, ops_view(per_epoch_ops@[i]@), Strategy::InferenceOnly)
            && run_matches(r@[i].2, ops_view(per_epoch_ops@[i]@), Strategy::StateCached),
{
    let mut results: Vec<(EpochId, BenchmarkRun, BenchmarkRun)> = Vec::new();
    let mut i: usize = 0;
    while i < per_epoch_ops.len()
        invariant
            i <= per_epoch_ops@.len(),
            results@.len() == i,
            forall|j: int| 0 <= j < per_epoch_ops@.len() ==> tally_fits(ops_view(#[trigger] per_epoch_ops@[j]@), Strategy::InferenceOnly)
                && tally_fits(ops_view(per_epoch_ops@[j]@), Strategy::StateCached),
            forall|j: int| 0 <= j < i ==> (#[trigger] results@[j]).0 == EpochId((j + 1) as u64)
                && run_matches(results@[j].1, ops_view(per_epoch_ops@[j]@), Strategy::InferenceOnly)
                && run_matches(results@[j].2, ops_view(per_epoch_ops@[j]@), Strategy::StateCached),
        decreases per_epoch_ops@.len() - i,
    {
        let ops = per_epoch_ops[i].as_slice();
        let epoch = EpochId(i as u64 + 1);
        let inference_run = execute_benchmark(ops, Strategy::InferenceOnly);
        let vantage_run = execute_benchmark(ops, Strategy::StateCached);
        results.push((epoch, inference_run, vantage_run));
        i = i + 1;
    }
    results
}

/// The query of the `k`-th repetition (counted from one) in the repository
/// edit scenario.
pub open spec fn repeat_query_text(k: nat) -> Seq<char> {
    "what does authenticate do? (query #"@ + decimal(k) + ")"@
}

/// The repository edit scenario: read the repository, find a symbol, edit
/// its file, then ask about it `n` times.
pub open spec fn repo_edit_ops(n: nat) -> Seq<OpView> {
    seq![
        OpView::Read("repo"@, 50000),
        OpView::Search("find fn authenticate in auth.rs"@, 10000),
        OpView::Edit("auth.rs"@, 20000),
    ] + Seq::new(n, |i: int| OpView::RepeatQuery(repeat_query_text((i + 1) as nat), "auth.rs"@, 5000))
}

fn text_with_number(prefix: &str, k: u64, suffix: &str) -> (r: String)
    ensures
        r@ == prefix@ + decimal(k as nat) + suffix@,
{
    let mut q = String::from_str(prefix);
    let d = u64_to_decimal(k);
    q.append(d.as_str());
    q.append(suffix);
    q
}

fn text_of(a: &str, b: &str, c: &str) -> (r: String)
    ensures
        r@ == a@ + b@ + c@,
{
    let mut q = String::from_str(a);
    q.append(b);
    q.append(c);
    q
}

/// The repository edit scenario with `repeat_count` repeated queries.
pub fn repo_edit_scenario(repeat_count: usize) -> (r: Vec<BenchmarkOp>)
    ensures
        ops_view(r@) == repo_edit_ops(repeat_count as nat),
{
    let mut ops: Vec<BenchmarkOp> = Vec::new();
    ops.push(BenchmarkOp::Read { resource: ResourceId(String::from_str("repo")), size_tokens: 50_000 });
    ops.push(BenchmarkOp::Search { query: String::from_str("find fn authenticate in auth.rs"), size_tokens: 10_000 });
    ops.push(BenchmarkOp::Edit { target: ResourceId(String::from_str("auth.rs")), size_tokens: 20_000 });
    let ghost head = seq![
        OpView::Read("repo"@, 50000),
        OpView::Search("find fn authenticate in auth.rs"@, 10000),
        OpView::Edit("auth.rs"@, 20000),
    ];
    assert(ops_view(ops@) =~= head);
    let mut i: usize = 0;
    while i < repeat_count
        invariant
            i <= repeat_count,
            ops_view(ops@) == head + Seq::new(i as nat, |j: int| OpView::RepeatQuery(repeat_query_text((j + 1) as nat), "auth.rs"@, 5000)),
        decreases repeat_count - i,
    {
        let q = text_with_number("what does authenticate do? (query #", (i + 1) as u64, ")");
        let ghost before = ops_view(ops@);
        ops.push(BenchmarkOp::RepeatQuery { query: q, resource: ResourceId(String::from_str("auth.rs")), size_tokens: 5_000 });
        assert(ops_view(ops@) =~= before.push(OpView::RepeatQuery(repeat_query_text((i + 1) as nat), "auth.rs"@, 5000)));
        assert(head + Seq::new((i + 1) as nat, |j: int| OpView::RepeatQuery(repeat_query_text((j + 1) as nat), "auth.rs"@, 5000))
            =~= before.push(OpView::RepeatQuery(repeat_query_text((i + 1) as nat), "auth.rs"@, 5000)));
        i = i + 1;
    }
    ops
}

/// The scenario of one file: read it, find its main structure, edit it and
/// ask twice what changed.
pub open spec fn file_edit_ops(f: Seq<char>) -> Seq<OpView> {
    seq![
        OpView::Read("repo/"@ + f, 10000),
        OpView::Search("find main struct in "@ + f, 5000),
        OpView::Edit(f, 15000),
        OpView::RepeatQuery("what changed in "@ + f + "? (query #"@ + decimal(1) + ")"@, f, 3000),
        OpView::RepeatQuery("what changed in "@ + f + "? (query #"@ + decimal(2) + ")"@, f, 3000),
    ]
}

/// One scenario per file, each editing that file.
pub fn multi_file_edit_scenario(files: &[&str]) -> (r: Vec<Vec<BenchmarkOp>>)
    ensures
        r@.len() == files@.len(),
        forall|i: int| 0 <= i < r@.len() ==> ops_view((#[trigger] r@[i])@) == file_edit_ops(files@[i]@),
{
    let mut out: Vec<Vec<BenchmarkOp>> = Vec::new();
    let mut i: usize = 0;
    while i < files.len()
        invariant
            i <= files@.len(),
            out@.len() == i,
            forall|j: int| 0 <= j < i ==> ops_view((#[trigger] out@[j])@) == file_edit_ops(files@[j]@),
        decreases files@.len() - i,
    {
        let f: &str = files[i];
        proof { reveal_strlit(""); }
        let mut ops: Vec<BenchmarkOp> = Vec::new();
        ops.push(BenchmarkOp::Read { resource: ResourceId(text_of("repo/", f, "")), size_tokens: 10_000 });
        ops.push(BenchmarkOp::Search { query: text_of("find main struct in ", f, ""), size_tokens: 5_000 });
        ops.push(BenchmarkOp::Edit { target: ResourceId(String::from_str(f)), size_tokens: 15_000 });
        assert(("repo/"@ + f@ + ""@) =~= "repo/"@ + f@);
        assert(("find main struct in "@ + f@ + ""@) =~= "find main struct in "@ + f@);
        assert(ops_view(ops@) =~= file_edit_ops(f@).take(3));
        let mut k: u64 = 0;
        while k < 2
            invariant
                k <= 2,
                ops@.len() == 3 + k,
                ops_view(ops@) =~= file_edit_ops(f@).take(3 + k as int),
            decreases 2 - k,
        {
            let mut q = text_of("what changed in ", f, "? (query #");
            let d = u64_to_decimal(k + 1);
            q.append(d.as_str());
            q.append(")");
            let ghost before = ops_view(ops@);
            ops.push(BenchmarkOp::RepeatQuery { query: q, resource: ResourceId(String::from_str(f)), size_tokens: 3_000 });
            assert(ops_view(ops@) =~= before.push(op_view(ops@[ops@.len() - 1])));
            k = k + 1;
        }
        assert(ops_view(ops@) =~= file_edit_ops(f@));
        out.push(ops);
        i = i + 1;
    }
    out
}

/// Primary and secondary files of a repository with their estimated token
/// sizes.
pub struct RepoScanResult {
    pub primary_files: Vec<(ResourceId, u64)>,
    pub secondary_files: Vec<(ResourceId, u64)>,
}

/// An extension of source code.
pub open spec fn is_primary_ext(e: Seq<char>) -> bool {
    e == "rs"@ || e == "ts"@ || e == "tsx"@ || e == "py"@ || e == "js"@
}

/// An extension of documentation or configuration.
pub open spec fn is_secondary_ext(e: Seq<char>) -> bool {
    e == "md"@ || e == "yaml"@ || e == "yml"@ || e == "toml"@
}

/// The token estimate of a file: a token per four bytes, at least one.
pub open spec fn token_estimate(bytes: u64) -> u64 {
    if bytes / 4 >= 1 { (bytes / 4) as u64 } else { 1 }
}

/// The files of `files` (path, extension, size) whose extension `pick`
/// accepts, with their token estimates, in order.
pub open spec fn picked_files(files: Seq<(String, String, u64)>, primary: bool) -> Seq<(Seq<char>, u64)>
    decreases files.len(),
{
    if files.len() == 0 {
        Seq::empty()
    } else {
        let prev = picked_files(files.drop_last(), primary);
        let f = files.last();
        let e = f.1@;
        if (primary && is_primary_ext(e)) || (!primary && !is_primary_ext(e) && is_secondary_ext(e)) {
            prev.push((f.0@, token_estimate(f.2)))
        } else {
            prev
        }
    }
}

/// The view of a list of files with sizes.
pub open spec fn sized_view(v: Seq<(ResourceId, u64)>) -> Seq<(Seq<char>, u64)> {
    v.map_values(|p: (ResourceId, u64)| (p.0@, p.1))
}

/// Sorts scanned files (relative path, extension, size in bytes) into
/// source files and documentation or configuration files, dropping the
/// rest, with a token estimate of a token per four bytes, at least one.
pub fn classify_scanned_files(files: Vec<(String, String, u64)>) -> (r: RepoScanResult)
    ensures
        sized_view(r.primary_files@) == picked_files(files@, true),
        sized_view(r.secondary_files@) == picked_files(files@, false),
{
    let ghost fs = files@;
    let mut primary: Vec<(ResourceId, u64)> = Vec::new();
    let mut secondary: Vec<(ResourceId, u64)> = Vec::new();
    let mut rest = files;
    let n = rest.len();
    let mut i: usize = 0;
    while i < n
        invariant
            n == fs.len(),
            i <= n,
            rest@ == fs.skip(i as int),
            sized_view(primary@) == picked_files(fs.take(i as int), true),
            sized_view(secondary@) == picked_files(fs.take(i as int), false),
        decreases n - i,
    {
        let (path, ext, size) = rest.remove(0);
        assert(fs.take(i + 1).drop_last() =~= fs.take(i as int));
        assert(fs[i as int] == (path, ext, size));
        let e = ext.as_str();
        let tokens: u64 = if size / 4 >= 1 { size / 4 } else { 1 };
        let p = str_eq(e, "rs") || str_eq(e, "ts") || str_eq(e, "tsx") || str_eq(e, "py") || str_eq(e, "js");
        let sec = str_eq(e, "md") || str_eq(e, "yaml") || str_eq(e, "yml") || str_eq(e, "toml");
        if p {
            let ghost before = sized_view(primary@);
            primary.push((ResourceId(path), tokens));
            assert(sized_view(primary@) =~= before.push((fs[i as int].0@, token_estimate(size))));
        } else if sec {
            let ghost before = sized_view(secondary@);
            secondary.push((ResourceId(path), tokens));
            assert(sized_view(secondary@) =~= before.push((fs[i as int].0@, token_estimate(size))));
        }
        assert(rest@ =~= fs.skip(i + 1));
        i = i + 1;
    }
    assert(fs.take(n as int) =~= fs);
    RepoScanResult { primary_files: primary, secondary_files: secondary }
}

/// The separators of a path made forward slashes.
pub open spec fn forward_slashes(p: Seq<char>) -> Seq<char> {
    p.map_values(|c: char| if c == '\\' { '/' } else { c })
}

/// A path with every backslash made a forward slash.
pub fn normalize_separators(p: &str) -> (r: String)
    ensures
        r@ == forward_slashes(p@),
{
    let n = p.unicode_len();
    let mut out = String::new();
    let mut i: usize = 0;
    while i < n
        invariant
            n == p@.len(),
            i <= n,
            out@ == forward_slashes(p@.take(i as int)),
        decreases n - i,
    {
        let c = p.get_char(i);
        proof { reveal_strlit("/"); }
        if c == '\\' {
            out.append("/");
        } else {
            out.append(p.substring_char(i, i + 1));
            assert(p@.subrange(i as int, i + 1) =~= seq![c]);
        }
        assert(forward_slashes(p@.take(i + 1)) =~= forward_slashes(p@.take(i as int)).push(if c == '\\' { '/' } else { c }));
        i = i + 1;
    }
    assert(p@.take(n as int) =~= p@);
    out
}

/// A query size: a quarter of the file's tokens, at least ten.
pub open spec fn query_size(tokens: u64) -> u64 {
    if tokens / 4 >= 10 { (tokens / 4) as u64 } else { 10 }
}

/// Reads of the first `k` files.
pub open spec fn reads_of(pf: Seq<(Seq<char>, u64)>, k: nat) -> Seq<OpView> {
    Seq::new(k, |i: int| OpView::Read(pf[i].0, pf[i].1))
}

/// `k` identical repeated queries.
pub open spec fn repeats_of(q: Seq<char>, r: Seq<char>, n: u64, k: nat) -> Seq<OpView> {
    Seq::new(k, |i: int| OpView::RepeatQuery(q, r, n))
}

/// Queries about the impact on each of the first `k` files.
pub open spec fn impacts_of(pf: Seq<(Seq<char>, u64)>, k: nat) -> Seq<OpView> {
    Seq::new(k, |i: int| OpView::RepeatQuery("impact on "@ + pf[i].0, pf[i].0, query_size(pf[i].1)))
}

/// The smaller of two numbers.
pub open spec fn min_nat(a: nat, b: nat) -> nat {
    if a <= b { a } else { b }
}

/// Adding a feature: read up to five files, edit the first, ask three
/// times to explain it.
pub open spec fn feature_ops(pf: Seq<(Seq<char>, u64)>) -> Seq<OpView> {
    reads_of(pf, min_nat(pf.len(), 5)) + seq![OpView::Edit(pf[0].0, pf[0].1)]
        + repeats_of("explain "@ + pf[0].0, pf[0].0, query_size(pf[0].1), 3)
}

/// Fixing a bug: search, read up to ten files, edit the second (the first
/// when there is one), ask five times to verify the fix.
pub open spec fn bugfix_ops(pf: Seq<(Seq<char>, u64)>) -> Seq<OpView> {
    let fix = if pf.len() > 1 { pf[1] } else { pf[0] };
    seq![OpView::Search("bug in authorization flow"@, 500)] + reads_of(pf, min_nat(pf.len(), 10))
        + seq![OpView::Edit(fix.0, fix.1)] + repeats_of("verify fix in "@ + fix.0, fix.0, query_size(fix.1), 5)
}

/// Refactoring the core: read up to fifteen files, edit the last, ask
/// about the impact on up to ten files.
pub open spec fn refactor_ops(pf: Seq<(Seq<char>, u64)>) -> Seq<OpView> {
    let central = pf[pf.len() - 1];
    reads_of(pf, min_nat(pf.len(), 15)) + seq![OpView::Edit(central.0, central.1)]
        + impacts_of(pf, min_nat(pf.len(), 10))
}

fn push_reads(ops: &mut Vec<BenchmarkOp>, pf: &Vec<(ResourceId, u64)>, k: usize)
    requires
        k <= pf@.len(),
    ensures
        ops_view(final(ops)@) == ops_view(old(ops)@) + reads_of(sized_view(pf@), k as nat),
{
    let mut i: usize = 0;
    while i < k
        invariant
            i <= k <= pf@.len(),
            ops_view(ops@) == ops_view(old(ops)@) + reads_of(sized_view(pf@), i as nat),
        decreases k - i,
    {
        let ghost before = ops_view(ops@);
        ops.push(BenchmarkOp::Read { resource: pf[i].0.clone(), size_tokens: pf[i].1 });
        assert(ops_view(ops@) =~= before.push(OpView::Read(pf@[i as int].0@, pf@[i as int].1)));
        assert(reads_of(sized_view(pf@), (i + 1) as nat) =~= reads_of(sized_view(pf@), i as nat)
            .push(OpView::Read(pf@[i as int].0@, pf@[i as int].1)));
        i = i + 1;
    }
}

fn push_repeats(ops: &mut Vec<BenchmarkOp>, prefix: &str, target: &ResourceId, n: u64, k: usize)
    ensures
        ops_view(final(ops)@) == ops_view(old(ops)@) + repeats_of(prefix@ + target@, target@, n, k as nat),
{
    let mut i: usize = 0;
    while i < k
        invariant
            i <= k,
            ops_view(ops@) == ops_view(old(ops)@) + repeats_of(prefix@ + target@, target@, n, i as nat),
        decreases k - i,
    {
        let ghost before = ops_view(ops@);
        let mut q = String::from_str(prefix);
        q.append(target.0.as_str());
        ops.push(BenchmarkOp::RepeatQuery { query: q, resource: target.clone(), size_tokens: n });
        assert(ops_view(ops@) =~= before.push(OpView::RepeatQuery(prefix@ + target@, target@, n)));
        assert(repeats_of(prefix@ + target@, target@, n, (i + 1) as nat) =~= repeats_of(prefix@ + target@, target@, n, i as nat)
            .push(OpView::RepeatQuery(prefix@ + target@, target@, n)));
        i = i + 1;
    }
}

fn query_size_of(tokens: u64) -> (r: u64)
    ensures
        r == query_size(tokens),
{
    if tokens / 4 >= 10 { tokens / 4 } else { 10 }
}

fn min_usize(a: usize, b: usize) -> (r: usize)
    ensures
        r == min_nat(a as nat, b as nat),
{
    if a <= b { a } else { b }
}

/// Three scenarios over the primary files of a scan, or none without
/// primary files.
pub fn generate_repo_scenarios(scan: &RepoScanResult) -> (r: Vec<(String, Vec<BenchmarkOp>)>)
    ensures
        scan.primary_files@.len() == 0 ==> r@.len() == 0,
        scan.primary_files@.len() > 0 ==> {
            let pf = sized_view(scan.primary_files@);
            &&& r@.len() == 3
            &&& r@[0].0@ == "Feature Addition"@ && ops_view(r@[0].1@) == feature_ops(pf)
            &&& r@[1].0@ == "Bug Fix"@ && ops_view(r@[1].1@) == bugfix_ops(pf)
            &&& r@[2].0@ == "Core Refactoring"@ && ops_view(r@[2].1@) == refactor_ops(pf)
        },
{
    let mut scenarios: Vec<(String, Vec<BenchmarkOp>)> = Vec::new();
    let pf = &scan.primary_files;
    let n = pf.len();
    if n == 0 {
        return scenarios;
    }
    let ghost pv = sized_view(pf@);
    assert(ops_view(Seq::<BenchmarkOp>::empty()) =~= Seq::<OpView>::empty());

    let mut ops1: Vec<BenchmarkOp> = Vec::new();
    push_reads(&mut ops1, pf, min_usize(n, 5));
    let edit = &pf[0];
    let ghost b1 = ops_view(ops1@);
    ops1.push(BenchmarkOp::Edit { target: edit.0.clone(), size_tokens: edit.1 });
    assert(ops_view(ops1@) =~= b1.push(OpView::Edit(pv[0].0, pv[0].1)));
    push_repeats(&mut ops1, "explain ", &edit.0, query_size_of(edit.1), 3);
    assert(ops_view(ops1@) =~= feature_ops(pv));
    scenarios.push((String::from_str("Feature Addition"), ops1));

    let mut ops2: Vec<BenchmarkOp> = Vec::new();
    ops2.push(BenchmarkOp::Search { query: String::from_str("bug in authorization flow"), size_tokens: 500 });
    push_reads(&mut ops2, pf, min_usize(n, 10));
    let fix_idx: usize = if n > 1 { 1 } else { 0 };
    let fix = &pf[fix_idx];
    let ghost b2 = ops_view(ops2@);
    ops2.push(BenchmarkOp::Edit { target: fix.0.clone(), size_tokens: fix.1 });
    assert(ops_view(ops2@) =~= b2.push(OpView::Edit(pv[fix_idx as int].0, pv[fix_idx as int].1)));
    push_repeats(&mut ops2, "verify fix in ", &fix.0, query_size_of(fix.1), 5);
    assert(ops_view(ops2@) =~= bugfix_ops(pv));
    scenarios.push((String::from_str("Bug Fix"), ops2));

    let mut ops3: Vec<BenchmarkOp> = Vec::new();
    push_reads(&mut ops3, pf, min_usize(n, 15));
    let central = &pf[n - 1];
    let ghost b3 = ops_view(ops3@);
    ops3.push(BenchmarkOp::Edit { target: central.0.clone(), size_tokens: central.1 });
    assert(ops_view(ops3@) =~= b3.push(OpView::Edit(pv[n - 1].0, pv[n - 1].1)));
    let qc = min_usize(n, 10);
    let ghost base3 = ops_view(ops3@);
    let mut i: usize = 0;
    while i < qc
        invariant
            i <= qc <= pf@.len(),
            pv == sized_view(pf@),
            ops_view(ops3@) == base3 + impacts_of(pv, i as nat),
        decreases qc - i,
    {
        let ghost before = ops_view(ops3@);
        let mut q = String::from_str("impact on ");
        q.append(pf[i].0.0.as_str());
        ops3.push(BenchmarkOp::RepeatQuery { query: q, resource: pf[i].0.clone(), size_tokens: query_size_of(pf[i].1) });
        assert(ops_view(ops3@) =~= before.push(OpView::RepeatQuery("impact on "@ + pv[i as int].0, pv[i as int].0, query_size(pv[i as int].1))));
        assert(impacts_of(pv, (i + 1) as nat) =~= impacts_of(pv, i as nat)
            .push(OpView::RepeatQuery("impact on "@ + pv[i as int].0, pv[i as int].0, query_size(pv[i as int].1))));
        i = i + 1;
    }
    assert(ops_view(ops3@) =~= refactor_ops(pv));
    scenarios.push((String::from_str("Core Refactoring"), ops3));
    scenarios
}

} // verus!
