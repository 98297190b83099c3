//! Processes as the monitor lists them, and the orders in which the list can be shown.
use vstd::prelude::*;
use vstd::string::StrSliceExecFns;

verus! {

/// Sorting order for processes
#[derive(Debug, Clone, Copy, PartialEq, Eq, Structural)]
pub enum SortBy {
    /// Sort by CPU usage (default)
    Cpu,
    /// Sort by memory usage
    Memory,
    /// Sort by process name
    Name,
    /// Sort by process ID
    Pid,
}

/// Information about a single process
///
/// The CPU usage, a 32-bit float percentage, is held as its IEEE 754 bit pattern
/// (what `f32::to_bits` gives), so that the list can be ordered without floating point.
#[derive(Debug, Clone)]
pub struct ProcessInfo {
    /// Process ID
    pub pid: u32,
    /// Process name
    pub name: String,
    /// Bit pattern of the CPU usage percentage (0-100 per core)
    pub cpu_usage_bits: u32,
    /// Memory usage in bytes
    pub memory_usage: u64,
}

/// The bit pattern `bits` encodes a NaN.
pub open spec fn f32_is_nan(bits: u32) -> bool {
    (bits & 0x7f80_0000) == 0x7f80_0000 && (bits & 0x007f_ffff) != 0
}

/// A key whose integer order is the numeric order of the (non-NaN) floats with these bit
/// patterns: negative values are stored as sign and magnitude, so their bits are flipped;
/// positive ones get the top bit set; both zeros map to the same key.
pub open spec fn f32_order_key(bits: u32) -> u32 {
    if bits == 0x8000_0000 {
        0x8000_0000
    } else if (bits & 0x8000_0000) != 0 {
        !bits
    } else {
        bits | 0x8000_0000
    }
}

/// `a` comes strictly before `b` in the order of strings: the first differing character is
/// smaller in `a`, or `a` is a proper prefix of `b`. On UTF-8 text this is the byte-wise
/// order in which `String`s compare.
pub open spec fn chars_less(a: Seq<char>, b: Seq<char>) -> bool
    decreases a.len(),
{
    if a.len() == 0 {
        b.len() > 0
    } else if b.len() == 0 {
        false
    } else if a[0] != b[0] {
        (a[0] as u32) < (b[0] as u32)
    } else {
        chars_less(a.drop_first(), b.drop_first())
    }
}

/// The comparator of the sort under `by` says that `a` is greater than `b`, so that `a`
/// must stand after `b`: CPU usage and memory go from high to low (two CPU values of which
/// one is NaN compare as equal), names and pids from low to high.
pub open spec fn sorts_after(by: SortBy, a: ProcessInfo, b: ProcessInfo) -> bool {
    match by {
        SortBy::Cpu => !f32_is_nan(a.cpu_usage_bits) && !f32_is_nan(b.cpu_usage_bits)
            && f32_order_key(a.cpu_usage_bits) < f32_order_key(b.cpu_usage_bits),
        SortBy::Memory => a.memory_usage < b.memory_usage,
        SortBy::Name => chars_less(b.name@, a.name@),
        SortBy::Pid => a.pid > b.pid,
    }
}

/// The comparator under `by` says that `a` and `b` are equal.
pub open spec fn sorts_level(by: SortBy, a: ProcessInfo, b: ProcessInfo) -> bool {
    !sorts_after(by, a, b) && !sorts_after(by, b, a)
}

/// The comparator under `by` is a total order on the items of `s`: always, except that
/// under `Cpu` no usage may be NaN.
pub open spec fn comparator_total_on(by: SortBy, s: Seq<ProcessInfo>) -> bool {
    by == SortBy::Cpu ==> forall|i: int| 0 <= i < s.len() ==> !f32_is_nan(#[trigger] s[i].cpu_usage_bits)
}

/// No item of `s` stands after a later one in the order `by`.
pub open spec fn sorted_by(by: SortBy, s: Seq<ProcessInfo>) -> bool {
    forall|i: int, j: int| 0 <= i < j < s.len() ==> !sorts_after(by, #[trigger] s[i], #[trigger] s[j])
}

/// Some position of `p` holds the index `k`.
pub open spec fn index_taken(p: Seq<int>, k: int) -> bool {
    exists|i: int| 0 <= i < p.len() && p[i] == k
}

/// `after` is `before` rearranged: item `i` of `after` is item `p[i]` of `before`, and `p`
/// takes every index of `before` exactly once.
pub open spec fn rearranged(p: Seq<int>, before: Seq<ProcessInfo>, after: Seq<ProcessInfo>) -> bool {
    &&& p.len() == after.len()
    &&& after.len() == before.len()
    &&& forall|i: int| 0 <= i < p.len() ==> 0 <= #[trigger] p[i] < before.len()
    &&& forall|i: int| 0 <= i < p.len() ==> after[i] == before[#[trigger] p[i]]
    &&& forall|i: int, j: int| 0 <= i < j < p.len() ==> #[trigger] p[i] != #[trigger] p[j]
    &&& forall|k: int| 0 <= k < before.len() ==> #[trigger] index_taken(p, k)
}

/// Inserting the next index `taken` anywhere keeps every earlier index taken.
proof fn lemma_insert_keeps_indices(p: Seq<int>, j: int, taken: int)
    requires
        0 <= j <= p.len(),
        forall|k: int| 0 <= k < taken ==> #[trigger] index_taken(p, k),
    ensures
        forall|k: int| 0 <= k <= taken ==> #[trigger] index_taken(p.insert(j, taken), k),
{
    let q = p.insert(j, taken);
    assert forall|k: int| 0 <= k <= taken implies #[trigger] index_taken(q, k) by {
        if k == taken {
            assert(q[j] == taken);
        } else {
            assert(index_taken(p, k));
            let i = choose|i: int| 0 <= i < p.len() && p[i] == k;
            if i < j {
                assert(q[i] == k);
            } else {
                assert(q[i + 1] == k);
            }
        }
    }
}

/// Items that the order `by` holds equal keep, in `after`, the order they had before the
/// rearrangement `p`.
pub open spec fn stable(by: SortBy, p: Seq<int>, after: Seq<ProcessInfo>) -> bool {
    forall|i: int, j: int|
        0 <= i < j < after.len() && sorts_level(by, #[trigger] after[i], #[trigger] after[j])
            ==> p[i] < p[j]
}

proof fn lemma_chars_less_irreflexive(a: Seq<char>)
    ensures
        !chars_less(a, a),
    decreases a.len(),
{
    if a.len() > 0 {
        lemma_chars_less_irreflexive(a.drop_first());
    }
}

proof fn lemma_chars_less_transitive(a: Seq<char>, b: Seq<char>, c: Seq<char>)
    requires
        chars_less(a, b),
        chars_less(b, c),
    ensures
        chars_less(a, c),
    decreases a.len(),
{
    if a.len() > 0 && b.len() > 0 && c.len() > 0 && a[0] == b[0] && b[0] == c[0] {
        lemma_chars_less_transitive(a.drop_first(), b.drop_first(), c.drop_first());
    }
}

proof fn lemma_chars_less_total(a: Seq<char>, b: Seq<char>)
    ensures
        chars_less(a, b) || a == b || chars_less(b, a),
    decreases a.len(),
{
    if a.len() > 0 && b.len() > 0 {
        if a[0] == b[0] {
            lemma_chars_less_total(a.drop_first(), b.drop_first());
            if a.drop_first() == b.drop_first() {
                assert(a =~= seq![a[0]] + a.drop_first());
                assert(b =~= seq![b[0]] + b.drop_first());
            }
        } else if (a[0] as u32) == (b[0] as u32) {
            vstd::utf8::char_u32_cast(a[0], a[0] as u32);
            vstd::utf8::char_u32_cast(b[0], b[0] as u32);
        }
    } else if a.len() == 0 && b.len() == 0 {
        assert(a =~= b);
    }
}

/// A comparator never puts each of two items after the other.
proof fn lemma_sorts_after_asymmetric(by: SortBy, a: ProcessInfo, b: ProcessInfo)
    requires
        sorts_after(by, a, b),
    ensures
        !sorts_after(by, b, a),
{
    if by == SortBy::Name && chars_less(a.name@, b.name@) {
        lemma_chars_less_transitive(a.name@, b.name@, a.name@);
        lemma_chars_less_irreflexive(a.name@);
    }
}

/// Under a total comparator, "does not stand after" is transitive.
proof fn lemma_not_after_transitive(by: SortBy, a: ProcessInfo, b: ProcessInfo, c: ProcessInfo)
    requires
        by == SortBy::Cpu ==> !f32_is_nan(a.cpu_usage_bits) && !f32_is_nan(b.cpu_usage_bits)
            && !f32_is_nan(c.cpu_usage_bits),
        !sorts_after(by, a, b),
        !sorts_after(by, b, c),
    ensures
        !sorts_after(by, a, c),
{
    if by == SortBy::Name {
        lemma_chars_less_total(a.name@, b.name@);
        lemma_chars_less_total(b.name@, c.name@);
        if chars_less(c.name@, a.name@) {
            if chars_less(a.name@, b.name@) {
                lemma_chars_less_transitive(c.name@, a.name@, b.name@);
                if chars_less(b.name@, c.name@) {
                    lemma_chars_less_transitive(c.name@, b.name@, c.name@);
                    lemma_chars_less_irreflexive(c.name@);
                }
            }
        }
    }
}

/// `a` has a smaller name than `b`.
fn name_less(a: &String, b: &String) -> (less: bool)
    ensures
        less == chars_less(a@, b@),
{
    let a_str = a.as_str();
    let b_str = b.as_str();
    let a_len = a_str.unicode_len();
    let b_len = b_str.unicode_len();
    let mut i: usize = 0;
    assert(a@.skip(0) =~= a@);
    assert(b@.skip(0) =~= b@);
    while i < a_len && i < b_len
        invariant
            a_str@ == a@,
            b_str@ == b@,
            a_len == a@.len(),
            b_len == b@.len(),
            i <= a_len,
            i <= b_len,
            chars_less(a@, b@) == chars_less(a@.skip(i as int), b@.skip(i as int)),
        decreases a_len - i,
    {
        let ca = a_str.get_char(i);
        let cb = b_str.get_char(i);
        assert(a@.skip(i as int)[0] == ca);
        assert(b@.skip(i as int)[0] == cb);
        if ca != cb {
            return (ca as u32) < (cb as u32);
        }
        assert(a@.skip(i as int).drop_first() =~= a@.skip(i + 1));
        assert(b@.skip(i as int).drop_first() =~= b@.skip(i + 1));
        i = i + 1;
    }
    i < b_len
}

/// The key under which the CPU usage with bit pattern `bits` is ordered.
fn cpu_order_key(bits: u32) -> (key: u32)
    ensures
        key == f32_order_key(bits),
{
    if bits == 0x8000_0000 {
        0x8000_0000
    } else if (bits & 0x8000_0000) != 0 {
        !bits
    } else {
        bits | 0x8000_0000
    }
}

fn cpu_is_nan(bits: u32) -> (nan: bool)
    ensures
        nan == f32_is_nan(bits),
{
    (bits & 0x7f80_0000) == 0x7f80_0000 && (bits & 0x007f_ffff) != 0
}

/// Whether the comparator of the sort under `by` puts `a` after `b`.
pub fn sorts_after_exec(by: SortBy, a: &ProcessInfo, b: &ProcessInfo) -> (after: bool)
    ensures
        after == sorts_after(by, *a, *b),
{
    match by {
        SortBy::Cpu => {
            !cpu_is_nan(a.cpu_usage_bits) && !cpu_is_nan(b.cpu_usage_bits) && cpu_order_key(
                a.cpu_usage_bits,
            ) < cpu_order_key(b.cpu_usage_bits)
        },
        SortBy::Memory => a.memory_usage < b.memory_usage,
        SortBy::Name => name_less(&b.name, &a.name),
        SortBy::Pid => a.pid > b.pid,
    }
}

/// Putting `x`, which came later than every item of `s`, right after the last item that
/// does not stand after it keeps items that compare equal in their first order.
proof fn lemma_insert_stable(by: SortBy, s: Seq<ProcessInfo>, p: Seq<int>, x: ProcessInfo, taken: int, j: int)
    requires
        0 <= j <= s.len(),
        p.len() == s.len(),
        forall|i: int| 0 <= i < p.len() ==> #[trigger] p[i] < taken,
        stable(by, p, s),
        forall|m: int| j <= m < s.len() ==> sorts_after(by, #[trigger] s[m], x),
    ensures
        stable(by, p.insert(j, taken), s.insert(j, x)),
{
    let s2 = s.insert(j, x);
    let p2 = p.insert(j, taken);
    assert forall|a: int, b: int|
        0 <= a < b < s2.len() && sorts_level(by, #[trigger] s2[a], #[trigger] s2[b])
        implies p2[a] < p2[b] by {
        if b == j {
            assert(p2[a] == p[a]);
        } else if a == j {
            assert(s2[b] == s[b - 1]);
            lemma_sorts_after_asymmetric(by, s[b - 1], x);
        } else if a < j && b > j {
            assert(s2[a] == s[a] && s2[b] == s[b - 1]);
            assert(p[a] < p[b - 1]);
        } else if b < j {
            assert(s2[a] == s[a] && s2[b] == s[b]);
            assert(p[a] < p[b]);
        } else {
            assert(s2[a] == s[a - 1] && s2[b] == s[b - 1]);
            assert(p[a - 1] < p[b - 1]);
        }
    }
}

/// Under a total comparator, the same insertion keeps a sorted sequence sorted.
proof fn lemma_insert_sorted(
    by: SortBy,
    orig: Seq<ProcessInfo>,
    s: Seq<ProcessInfo>,
    p: Seq<int>,
    x: ProcessInfo,
    taken: int,
    j: int,
)
    requires
        0 <= j <= s.len(),
        0 <= taken < orig.len(),
        x == orig[taken],
        p.len() == s.len(),
        forall|i: int| 0 <= i < p.len() ==> 0 <= #[trigger] p[i] < orig.len(),
        forall|i: int| 0 <= i < p.len() ==> s[i] == orig[#[trigger] p[i]],
        comparator_total_on(by, orig),
        sorted_by(by, s),
        forall|m: int| j <= m < s.len() ==> sorts_after(by, #[trigger] s[m], x),
        j > 0 ==> !sorts_after(by, s[j - 1], x),
    ensures
        sorted_by(by, s.insert(j, x)),
{
    let s2 = s.insert(j, x);
    assert forall|a: int, b: int| 0 <= a < b < s2.len() implies !sorts_after(
        by,
        #[trigger] s2[a],
        #[trigger] s2[b],
    ) by {
        if b == j {
            assert(s2[a] == s[a]);
            if a < j - 1 {
                assert(!sorts_after(by, s[a], s[j - 1]));
                assert(orig[p[a]] == s[a]);
                assert(orig[p[j - 1]] == s[j - 1]);
                lemma_not_after_transitive(by, s[a], s[j - 1], x);
            }
        } else if a == j {
            assert(s2[b] == s[b - 1]);
            lemma_sorts_after_asymmetric(by, s[b - 1], x);
        } else if a < j && b > j {
            assert(s2[a] == s[a] && s2[b] == s[b - 1]);
            assert(!sorts_after(by, s[a], s[b - 1]));
        } else if b < j {
            assert(s2[a] == s[a] && s2[b] == s[b]);
            assert(!sorts_after(by, s[a], s[b]));
        } else {
            assert(s2[a] == s[a - 1] && s2[b] == s[b - 1]);
            assert(!sorts_after(by, s[a - 1], s[b - 1]));
        }
    }
}

/// Sorts `list` stably in the order `by`, as `slice::sort_by` does with the comparator of
/// that order.
///
/// The result is always a rearrangement of the list in which items that compare equal keep
/// their order; it is sorted whenever the comparator is a total order on the items (that is,
/// unless a CPU usage is NaN).
pub fn sort_process_list(list: &mut Vec<ProcessInfo>, by: SortBy)
    ensures
        exists|p: Seq<int>|
            rearranged(p, old(list)@, final(list)@) && #[trigger] stable(by, p, final(list)@),
        comparator_total_on(by, old(list)@) ==> sorted_by(by, final(list)@),
{
    let ghost orig = list@;
    let mut input: Vec<ProcessInfo> = Vec::new();
    std::mem::swap(&mut input, list);
    let mut out: Vec<ProcessInfo> = Vec::new();
    let ghost mut p: Seq<int> = Seq::empty();
    let ghost mut taken: int = 0;
    assert(orig.skip(0) =~= orig);
    while input.len() > 0
        invariant
            0 <= taken <= orig.len(),
            input@ == orig.skip(taken),
            p.len() == out@.len(),
            out@.len() == taken,
            forall|i: int| 0 <= i < p.len() ==> 0 <= #[trigger] p[i] < taken,
            forall|i: int| 0 <= i < p.len() ==> out@[i] == orig[#[trigger] p[i]],
            forall|i: int, j: int| 0 <= i < j < p.len() ==> #[trigger] p[i] != #[trigger] p[j],
            forall|k: int| 0 <= k < taken ==> #[trigger] index_taken(p, k),
            stable(by, p, out@),
            comparator_total_on(by, orig) ==> sorted_by(by, out@),
        decreases input.len(),
    {
        let x = input.remove(0);
        assert(x == orig[taken]);
        assert(input@ =~= orig.skip(taken + 1));
        let mut j: usize = out.len();
        while j > 0 && sorts_after_exec(by, &out[j - 1], &x)
            invariant
                j <= out@.len(),
                forall|m: int| j <= m < out@.len() ==> sorts_after(by, #[trigger] out@[m], x),
            decreases j,
        {
            j = j - 1;
        }
        proof {
            lemma_insert_keeps_indices(p, j as int, taken);
            lemma_insert_stable(by, out@, p, x, taken, j as int);
            if comparator_total_on(by, orig) {
                lemma_insert_sorted(by, orig, out@, p, x, taken, j as int);
            }
        }
        out.insert(j, x);
        proof {
            p = p.insert(j as int, taken);
            taken = taken + 1;
        }
    }
    *list = out;
    proof {
        assert(rearranged(p, orig, list@));
    }
}

/// Sorting keeps a list that is already in order as it is: a stable, sorted rearrangement
/// of a sorted list under a total comparator is the list itself. So sorting twice gives
/// what sorting once gives.
pub proof fn lemma_sorted_list_kept(by: SortBy, p: Seq<int>, before: Seq<ProcessInfo>, after: Seq<ProcessInfo>)
    requires
        rearranged(p, before, after),
        stable(by, p, after),
        sorted_by(by, after),
        sorted_by(by, before),
        comparator_total_on(by, before),
    ensures
        after == before,
{
    let n = p.len() as int;
    // The rearrangement keeps the order of any two items.
    assert forall|i: int, j: int| 0 <= i < j < n implies #[trigger] p[i] < #[trigger] p[j] by {
        if !sorts_level(by, after[i], after[j]) {
            assert(!sorts_after(by, after[i], after[j]));
            assert(sorts_after(by, after[j], after[i]));
            if p[j] < p[i] {
                assert(!sorts_after(by, before[p[j]], before[p[i]]));
            }
        }
    }
    lemma_increasing_indices_identity(p, n);
    assert forall|i: int| 0 <= i < n implies after[i] == before[i] by {
        assert(p[i] == i);
    }
    assert(after =~= before);
}

proof fn lemma_increasing_indices_identity(p: Seq<int>, n: int)
    requires
        p.len() == n,
        forall|i: int| 0 <= i < n ==> 0 <= #[trigger] p[i] < n,
        forall|i: int, j: int| 0 <= i < j < n ==> #[trigger] p[i] < #[trigger] p[j],
    ensures
        forall|i: int| 0 <= i < n ==> #[trigger] p[i] == i,
{
    assert forall|i: int| 0 <= i < n implies #[trigger] p[i] == i by {
        lemma_index_at_least(p, n, i);
        lemma_index_at_most(p, n, i);
    }
}

proof fn lemma_index_at_least(p: Seq<int>, n: int, i: int)
    requires
        p.len() == n,
        0 <= i < n,
        forall|k: int| 0 <= k < n ==> 0 <= #[trigger] p[k] < n,
        forall|a: int, b: int| 0 <= a < b < n ==> #[trigger] p[a] < #[trigger] p[b],
    ensures
        p[i] >= i,
    decreases i,
{
    if i > 0 {
        lemma_index_at_least(p, n, i - 1);
        assert(p[i - 1] < p[i]);
    }
}

proof fn lemma_index_at_most(p: Seq<int>, n: int, i: int)
    requires
        p.len() == n,
        0 <= i < n,
        forall|k: int| 0 <= k < n ==> 0 <= #[trigger] p[k] < n,
        forall|a: int, b: int| 0 <= a < b < n ==> #[trigger] p[a] < #[trigger] p[b],
    ensures
        p[i] <= i,
    decreases n - i,
{
    if i < n - 1 {
        lemma_index_at_most(p, n, i + 1);
        assert(p[i] < p[i + 1]);
    }
}

/// What a sorted list looks like in each order: memory figures never rise and pids never
/// fall along the list (as whole `u64` and `u32` values), no name is followed by a smaller
/// one, and CPU usages never rise where neither is NaN.
pub proof fn lemma_sorted_list_shape(by: SortBy, s: Seq<ProcessInfo>)
    requires
        sorted_by(by, s),
    ensures
        by == SortBy::Memory ==> forall|i: int, j: int|
            0 <= i < j < s.len() ==> (#[trigger] s[i]).memory_usage as int >= (#[trigger] s[j]).memory_usage as int,
        by == SortBy::Pid ==> forall|i: int, j: int|
            0 <= i < j < s.len() ==> (#[trigger] s[i]).pid as int <= (#[trigger] s[j]).pid as int,
        by == SortBy::Name ==> forall|i: int, j: int|
            0 <= i < j < s.len() ==> !chars_less((#[trigger] s[j]).name@, (#[trigger] s[i]).name@),
        by == SortBy::Cpu ==> forall|i: int, j: int|
            0 <= i < j < s.len() && !f32_is_nan((#[trigger] s[i]).cpu_usage_bits) && !f32_is_nan(
                (#[trigger] s[j]).cpu_usage_bits,
            ) ==> f32_order_key(s[i].cpu_usage_bits) >= f32_order_key(s[j].cpu_usage_bits),
{
    assert forall|i: int, j: int| 0 <= i < j < s.len() implies !sorts_after(by, s[i], s[j]) by {
        assert(!sorts_after(by, s[i], s[j]));
    }
}

/// Whether one process stands after another, order by order, in terms of the fields: the
/// one with less memory, the greater pid, the greater name, or (neither NaN) the smaller CPU
/// usage goes after.
pub proof fn lemma_comparator_by_fields(a: ProcessInfo, b: ProcessInfo)
    ensures
        sorts_after(SortBy::Memory, a, b) <==> (a.memory_usage as int) < (b.memory_usage as int),
        sorts_after(SortBy::Pid, a, b) <==> (a.pid as int) > (b.pid as int),
        sorts_after(SortBy::Name, a, b) <==> chars_less(b.name@, a.name@),
        !f32_is_nan(a.cpu_usage_bits) && !f32_is_nan(b.cpu_usage_bits) ==> (sorts_after(
            SortBy::Cpu,
            a,
            b,
        ) <==> f32_order_key(a.cpu_usage_bits) < f32_order_key(b.cpu_usage_bits)),
        f32_is_nan(a.cpu_usage_bits) || f32_is_nan(b.cpu_usage_bits) ==> !sorts_after(SortBy::Cpu, a, b),
{
}

} // verus!
