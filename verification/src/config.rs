use vstd::prelude::*;

verus! {

/// Number of inference sessions for a machine with `cores` CPUs:
/// half the cores, at least 2 and at most 8.
pub open spec fn spec_pool_size(cores: nat) -> nat {
    let half = cores / 2;
    if half < 2 { 2 } else if half > 8 { 8 } else { half }
}

/// Number of ONNX Runtime threads per session: a quarter of the cores,
/// at least 1 and at most 4.
pub open spec fn spec_intra_threads(cores: nat) -> nat {
    let quarter = cores / 4;
    if quarter < 1 { 1 } else if quarter > 4 { 4 } else { quarter }
}

/// Session pool size for a given CPU count.
pub fn pool_size_for_cores(cores: usize) -> (n: usize)
    ensures
        n == spec_pool_size(cores as nat),
        2 <= n <= 8,
        2 <= cores / 2 <= 8 ==> n == cores / 2,
        cores < 4 ==> n == 2,
        cores >= 16 ==> n == 8,
{
    let half = cores / 2;
    if half < 2 {
        2
    } else if half > 8 {
        8
    } else {
        half
    }
}

/// Session pool size for this machine, from the CPU count the system reports.
pub fn calculate_pool_size() -> (n: usize)
    ensures
        2 <= n <= 8,
        exists|cores: nat| cores >= 1 && n == spec_pool_size(cores),
{
    let cores = cpu_count();
    pool_size_for_cores(cores)
}

/// ONNX Runtime intra-op thread count for a given CPU count.
pub fn intra_threads_for_cores(cores: usize) -> (n: i32)
    ensures
        n == spec_intra_threads(cores as nat),
        1 <= n <= 4,
        1 <= cores / 4 <= 4 ==> n == cores / 4,
        cores < 4 ==> n == 1,
        cores >= 16 ==> n == 4,
{
    let quarter = cores / 4;
    if quarter < 1 {
        1
    } else if quarter > 4 {
        4
    } else {
        quarter as i32
    }
}

/// ONNX Runtime intra-op thread count for this machine.
pub fn calculate_intra_threads() -> (n: i32)
    ensures
        1 <= n <= 4,
        exists|cores: nat| cores >= 1 && n == spec_intra_threads(cores),
{
    let cores = cpu_count();
    intra_threads_for_cores(cores)
}

/// Whether `c` is one of the ASCII digits `0` to `9`.
pub open spec fn is_ascii_digit(c: char) -> bool {
    '0' <= c && c <= '9'
}

/// The value of a string of decimal digits, most significant first.
pub open spec fn decimal_value(s: Seq<char>) -> nat
    decreases s.len(),
{
    if s.len() == 0 {
        0
    } else {
        decimal_value(s.drop_last()) * 10 + ((s.last() as nat) - ('0' as nat)) as nat
    }
}

/// The digits of an unsigned decimal literal: an optional leading `+` is dropped.
pub open spec fn unsigned_digits(s: Seq<char>) -> Seq<char> {
    if s.len() > 0 && s[0] == '+' {
        s.drop_first()
    } else {
        s
    }
}

/// What parsing `s` as a `usize` gives: an optional `+` followed by at least
/// one decimal digit and nothing else, whose value fits in a `usize`.
pub open spec fn spec_parse_usize(s: Seq<char>) -> Option<usize> {
    let d = unsigned_digits(s);
    if d.len() > 0 && (forall|i: int| 0 <= i < d.len() ==> is_ascii_digit(#[trigger] d[i]))
        && decimal_value(d) <= usize::MAX {
        Some(decimal_value(d) as usize)
    } else {
        None
    }
}

/// Concurrency limit of the engine: the configured value when it parses as a
/// `usize`, otherwise three requests per pooled session.
pub open spec fn spec_max_concurrency(pool: nat, setting: Option<Seq<char>>) -> nat {
    match setting {
        Some(s) => match spec_parse_usize(s) {
            Some(v) => v as nat,
            None => pool * 3,
        },
        None => pool * 3,
    }
}

/// The text of an optional setting.
pub open spec fn setting_view(setting: Option<&str>) -> Option<Seq<char>> {
    match setting {
        Some(s) => Some(s@),
        None => None,
    }
}

/// Concurrency limit of the engine for a pool of `pool` sessions and the
/// text of the `MAX_CONCURRENCY` setting, if one is set.
pub fn calculate_max_concurrency(pool: usize, setting: Option<&str>) -> (n: usize)
    requires
        spec_max_concurrency(pool as nat, setting_view(setting)) <= usize::MAX,
    ensures
        n == spec_max_concurrency(pool as nat, setting_view(setting)),
        setting is None ==> n == 3 * pool,
        forall|v: usize| setting is Some && spec_parse_usize(setting->Some_0@) == Some(v) ==> n == v,
        setting is Some && spec_parse_usize(setting->Some_0@) is None ==> n == 3 * pool,
{
    let parsed = match setting {
        Some(s) => parse_usize(s),
        None => None,
    };
    match parsed {
        Some(v) => v,
        None => pool * 3,
    }
}

/// The concurrency limit falls back to three requests per pooled session,
/// for every pool size, unless the setting parses as a `usize`, in which case
/// the limit is exactly that value.
pub proof fn lemma_max_concurrency_default(pool: nat, setting: Option<Seq<char>>)
    ensures
        setting is None ==> spec_max_concurrency(pool, setting) == 3 * pool,
        setting is Some && spec_parse_usize(setting->Some_0) is None ==> spec_max_concurrency(pool, setting)
            == 3 * pool,
        forall|v: usize|
            setting is Some && spec_parse_usize(setting->Some_0) == Some(v) ==> spec_max_concurrency(
                pool,
                setting,
            ) == v,
{
}

/// Half the cores, kept between 2 and 8, sessions; a quarter of the cores,
/// kept between 1 and 4, threads per session. More cores never mean fewer
/// sessions or threads.
pub proof fn lemma_sizes_follow_cores(cores: nat, more: nat)
    requires
        cores <= more,
    ensures
        2 <= cores / 2 <= 8 ==> spec_pool_size(cores) == cores / 2,
        cores / 2 < 2 ==> spec_pool_size(cores) == 2,
        cores / 2 > 8 ==> spec_pool_size(cores) == 8,
        1 <= cores / 4 <= 4 ==> spec_intra_threads(cores) == cores / 4,
        cores / 4 < 1 ==> spec_intra_threads(cores) == 1,
        cores / 4 > 4 ==> spec_intra_threads(cores) == 4,
        spec_pool_size(cores) <= spec_pool_size(more),
        spec_intra_threads(cores) <= spec_intra_threads(more),
{
    vstd::arithmetic::div_mod::lemma_div_is_ordered(cores as int, more as int, 2);
    vstd::arithmetic::div_mod::lemma_div_is_ordered(cores as int, more as int, 4);
}

/// Capacity of the request queue in front of the batcher: four full batches.
pub fn queue_capacity(max_batch_size: usize) -> (n: usize)
    requires
        max_batch_size >= 1,
        max_batch_size * 4 <= usize::MAX,
    ensures
        n == max_batch_size * 4,
        n >= 4,
{
    max_batch_size * 4
}

/// Calls `num_cpus::get`, which reports the CPUs available to this process
/// (affinity and cgroup limits included). Its documentation promises a
/// result of at least 1; what the machine reports is otherwise unknown.
#[verifier::external_body]
fn cpu_count() -> (n: usize)
    ensures
        n >= 1,
{
    num_cpus::get()
}

/// Calls `str::parse::<usize>` (`usize::from_str`), turning its error into
/// `None`. The claim follows std's documentation: an optional `+` and then
/// only decimal digits, with a value that fits.
#[verifier::external_body]
fn parse_usize(s: &str) -> (r: Option<usize>)
    ensures
        r == spec_parse_usize(s@),
{
    s.parse::<usize>().ok()
}

} // verus!
