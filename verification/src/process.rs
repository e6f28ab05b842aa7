//! Per-process counter rows and their aggregation.
//!
//! The OS performance counters report one row per process instance,
//! named `app`, `app:1`, `app:2` and so on, plus synthetic `Idle` and
//! `_Total` rows.  The samplers strip the instance qualifier, drop the
//! synthetic rows, and group what remains by base name — summing the
//! values and counting the instances — then zip the CPU and memory
//! groupings into one process table.

use vstd::prelude::*;
use crate::milli::Milli;
use crate::text::find_char;

verus! {

/// One raw counter row: an instance name and its formatted value —
/// thousandths of a percent for CPU, bytes for memory.
#[derive(Debug)]
pub struct RawCounterRow {
    pub name: String,
    pub value: i64,
}

/// One group of raw rows that share a base name.
#[derive(Debug)]
pub struct CounterGroup {
    pub name: String,
    pub total: i64,
    pub count: u64,
}

/// One aggregated process row: CPU in thousandths of a percent over
/// all cores, memory in bytes, and how many instances were grouped.
#[derive(Debug, Clone)]
pub struct Process {
    pub name: String,
    pub cpu: Milli,
    pub memory: i64,
    pub count: u64,
}

/// The handles under which the two per-process counter arrays are
/// registered with the OS counter subsystem.
#[derive(Default, Debug)]
pub struct ProcessMetricHandles {
    pub cpu_handle: isize,
    pub ram_handle: isize,
}

/// Bundles the registered per-process CPU and working-set counter
/// handles; registration itself is an OS call made by the caller,
/// against the paths [`process_cpu_counter_path`] and
/// [`process_ram_counter_path`].
pub fn init_process_metrics(cpu_handle: isize, ram_handle: isize) -> (r: ProcessMetricHandles)
    ensures
        r.cpu_handle == cpu_handle,
        r.ram_handle == ram_handle,
{
    ProcessMetricHandles { cpu_handle, ram_handle }
}

/// The counter path of the per-process CPU-time array.
pub fn process_cpu_counter_path() -> (r: String)
    ensures
        r@ == "\\Process V2(*)\\% Processor Time"@,
{
    String::from_str("\\Process V2(*)\\% Processor Time")
}

/// The counter path of the per-process working-set array.
pub fn process_ram_counter_path() -> (r: String)
    ensures
        r@ == "\\Process V2(*)\\Working Set"@,
{
    String::from_str("\\Process V2(*)\\Working Set")
}

/// The counter path of one volume's busy-time percentage.
pub fn disk_counter_path(drive: &str) -> (r: String)
    ensures
        r@ == "\\LogicalDisk("@ + drive@ + ")\\% Disk Time"@,
{
    let mut s = String::from_str("\\LogicalDisk(");
    s.append(drive);
    s.append(")\\% Disk Time");
    s
}

/// The views of raw rows: name and value.
pub open spec fn row_views(rows: Seq<RawCounterRow>) -> Seq<(Seq<char>, int)> {
    rows.map_values(|r: RawCounterRow| (r.name@, r.value as int))
}

/// The views of grouped rows: name, total and instance count.
pub open spec fn group_views(gs: Seq<CounterGroup>) -> Seq<(Seq<char>, int, int)> {
    gs.map_values(|g: CounterGroup| (g.name@, g.total as int, g.count as int))
}

/// An instance name up to its first `:`: the base process name.
pub open spec fn strip_instance(name: Seq<char>) -> Seq<char> {
    let d = find_char(name, ':');
    if d == -1 {
        name
    } else {
        name.subrange(0, d)
    }
}

/// Whether a base name is one of the synthetic rows the table drops.
pub open spec fn excluded_row(name: Seq<char>) -> bool {
    name == "Idle"@ || name == "_Total"@
}

/// The raw rows with instance qualifiers stripped and the synthetic
/// `Idle` and `_Total` rows dropped, in order.
pub open spec fn clean_rows_spec(rows: Seq<(Seq<char>, int)>) -> Seq<(Seq<char>, int)>
    decreases rows.len(),
{
    if rows.len() == 0 {
        Seq::<(Seq<char>, int)>::empty()
    } else {
        let rest = clean_rows_spec(rows.drop_first());
        let nm = strip_instance(rows[0].0);
        if excluded_row(nm) {
            rest
        } else {
            seq![(nm, rows[0].1)] + rest
        }
    }
}

/// Whether some row of `rows` bears exactly the name `name`.
pub open spec fn appears(rows: Seq<(Seq<char>, int)>, name: Seq<char>) -> bool {
    exists|i: int| 0 <= i < rows.len() && rows[i].0 == name
}

/// The sum of the values of the rows named `name`.
pub open spec fn sum_for(rows: Seq<(Seq<char>, int)>, name: Seq<char>) -> int
    decreases rows.len(),
{
    if rows.len() == 0 {
        0
    } else {
        sum_for(rows.drop_last(), name) + if rows.last().0 == name {
            rows.last().1
        } else {
            0
        }
    }
}

/// How many rows bear the name `name`.
pub open spec fn count_for(rows: Seq<(Seq<char>, int)>, name: Seq<char>) -> int
    decreases rows.len(),
{
    if rows.len() == 0 {
        0
    } else {
        count_for(rows.drop_last(), name) + if rows.last().0 == name {
            1int
        } else {
            0int
        }
    }
}

/// The distinct row names, in order of first appearance.
pub open spec fn group_names(rows: Seq<(Seq<char>, int)>) -> Seq<Seq<char>>
    decreases rows.len(),
{
    if rows.len() == 0 {
        Seq::<Seq<char>>::empty()
    } else {
        let d = group_names(rows.drop_last());
        if d.contains(rows.last().0) {
            d
        } else {
            d.push(rows.last().0)
        }
    }
}

/// The aggregation of `rows`: one entry per distinct name in order of
/// first appearance, with the summed value and the instance count.
pub open spec fn aggregate_spec(rows: Seq<(Seq<char>, int)>) -> Seq<(Seq<char>, int, int)> {
    Seq::new(
        group_names(rows).len(),
        |i: int|
            (
                group_names(rows)[i],
                sum_for(rows, group_names(rows)[i]),
                count_for(rows, group_names(rows)[i]),
            ),
    )
}

/// A name is grouped exactly when some row bears it.
pub proof fn lemma_group_names_complete(rows: Seq<(Seq<char>, int)>, name: Seq<char>)
    ensures
        group_names(rows).contains(name) <==> appears(rows, name),
    decreases rows.len(),
{
    if rows.len() > 0 {
        lemma_group_names_complete(rows.drop_last(), name);
        let d = group_names(rows.drop_last());
        if appears(rows, name) {
            let i = choose|i: int| 0 <= i < rows.len() && rows[i].0 == name;
            if i < rows.len() - 1 {
                assert(rows.drop_last()[i] == rows[i]);
                assert(appears(rows.drop_last(), name));
                if !d.contains(rows.last().0) {
                    assert(d.push(rows.last().0)[choose|j: int|
                        0 <= j < d.len() && d[j] == name] == name);
                }
            } else {
                if !d.contains(name) {
                    assert(d.push(name)[d.len() as int] == name);
                }
            }
        }
        if group_names(rows).contains(name) {
            let j = choose|j: int|
                0 <= j < group_names(rows).len() && group_names(rows)[j] == name;
            if d.contains(rows.last().0) {
                assert(appears(rows.drop_last(), name));
                let i = choose|i: int| 0 <= i < rows.len() - 1 && rows.drop_last()[i].0 == name;
                assert(rows[i] == rows.drop_last()[i]);
            } else {
                if j < d.len() {
                    assert(d[j] == name);
                    assert(appears(rows.drop_last(), name));
                    let i = choose|i: int|
                        0 <= i < rows.len() - 1 && rows.drop_last()[i].0 == name;
                    assert(rows[i] == rows.drop_last()[i]);
                } else {
                    assert(rows.last().0 == name);
                    assert(rows[rows.len() - 1].0 == name);
                }
            }
        }
    }
}

/// The grouped names never repeat.
pub proof fn lemma_group_names_distinct(rows: Seq<(Seq<char>, int)>)
    ensures
        forall|i: int, j: int|
            0 <= i < j < group_names(rows).len() ==> group_names(rows)[i] != group_names(rows)[j],
    decreases rows.len(),
{
    if rows.len() > 0 {
        lemma_group_names_distinct(rows.drop_last());
        let d = group_names(rows.drop_last());
        if !d.contains(rows.last().0) {
            assert(forall|i: int|
                0 <= i < d.len() ==> d.push(rows.last().0)[i] == d[i] && d[i] != rows.last().0);
        }
    }
}

/// A name no row bears sums to zero over zero instances.
pub proof fn lemma_sum_absent(rows: Seq<(Seq<char>, int)>, name: Seq<char>)
    requires
        !appears(rows, name),
    ensures
        sum_for(rows, name) == 0,
        count_for(rows, name) == 0,
    decreases rows.len(),
{
    if rows.len() > 0 {
        assert(rows[rows.len() - 1].0 != name);
        assert(forall|i: int| 0 <= i < rows.len() - 1 ==> rows.drop_last()[i] == rows[i]);
        lemma_sum_absent(rows.drop_last(), name);
    }
}

/// Cleaning never lengthens the row list and keeps every value bound.
pub proof fn lemma_clean_bounds(rows: Seq<(Seq<char>, int)>, bound: int)
    requires
        forall|i: int| 0 <= i < rows.len() ==> -bound <= #[trigger] rows[i].1 <= bound,
    ensures
        clean_rows_spec(rows).len() <= rows.len(),
        forall|i: int|
            0 <= i < clean_rows_spec(rows).len() ==> -bound <= #[trigger] clean_rows_spec(
                rows,
            )[i].1 <= bound,
    decreases rows.len(),
{
    if rows.len() > 0 {
        assert(forall|i: int| 0 <= i < rows.len() - 1 ==> rows.drop_first()[i] == rows[i + 1]);
        lemma_clean_bounds(rows.drop_first(), bound);
        let rest = clean_rows_spec(rows.drop_first());
        let nm = strip_instance(rows[0].0);
        if !excluded_row(nm) {
            assert(forall|i: int|
                1 <= i < clean_rows_spec(rows).len() ==> clean_rows_spec(rows)[i] == rest[i - 1]);
            assert(clean_rows_spec(rows)[0].1 == rows[0].1);
        }
    }
}

/// Group sums stay within `count * bound` when every value does.
pub proof fn lemma_sum_bound(rows: Seq<(Seq<char>, int)>, name: Seq<char>, bound: int)
    requires
        0 <= bound,
        forall|i: int| 0 <= i < rows.len() ==> -bound <= #[trigger] rows[i].1 <= bound,
    ensures
        0 <= count_for(rows, name) <= rows.len(),
        -(count_for(rows, name) * bound) <= sum_for(rows, name) <= count_for(rows, name) * bound,
    decreases rows.len(),
{
    if rows.len() > 0 {
        assert(forall|i: int| 0 <= i < rows.len() - 1 ==> rows.drop_last()[i] == rows[i]);
        lemma_sum_bound(rows.drop_last(), name, bound);
        let c = count_for(rows.drop_last(), name);
        if rows.last().0 == name {
            assert((c + 1) * bound == c * bound + bound) by (nonlinear_arith);
            assert(-bound <= rows[rows.len() - 1].1 <= bound);
        }
    }
}

/// Strips the instance qualifiers and drops the synthetic rows.
pub fn clean_rows(rows: &Vec<RawCounterRow>) -> (out: Vec<RawCounterRow>)
    ensures
        row_views(out@) == clean_rows_spec(row_views(rows@)),
{
    let ghost rv = row_views(rows@);
    let n = rows.len();
    let mut out: Vec<RawCounterRow> = Vec::new();
    let mut i: usize = 0;
    proof {
        assert(rv.skip(0) =~= rv);
        assert(row_views(out@) + clean_rows_spec(rv) =~= clean_rows_spec(rv));
    }
    while i < n
        invariant
            i <= n,
            n == rows@.len(),
            rv == row_views(rows@),
            clean_rows_spec(rv) == row_views(out@) + clean_rows_spec(rv.skip(i as int)),
        decreases n - i,
    {
        let name_str = rows[i].name.as_str();
        let cs = crate::text::chars_of(name_str);
        let d = crate::text::vec_find_char(&cs, ':', 0);
        proof {
            if d < cs.len() {
                crate::text::lemma_find_char_first(cs@, ':', d as int);
            } else {
                crate::text::lemma_find_char_absent(cs@, ':');
            }
            assert(cs@.subrange(0, d as int) =~= strip_instance(rows@[i as int].name@));
        }
        let stripped = name_str.substring_char(0, d);
        let sv = crate::text::chars_of(stripped);
        let idle = crate::text::chars_of("Idle");
        let total = crate::text::chars_of("_Total");
        let is_excluded = crate::text::vec_chars_eq(&sv, &idle) || crate::text::vec_chars_eq(
            &sv,
            &total,
        );
        let ghost out0 = out@;
        if !is_excluded {
            let nm = String::from_str(stripped);
            let value = rows[i].value;
            out.push(RawCounterRow { name: nm, value });
            proof {
                assert(row_views(out@) =~= row_views(out0).push(
                    (strip_instance(rows@[i as int].name@), rows@[i as int].value as int),
                ));
            }
        }
        proof {
            let t = rv.skip(i as int);
            assert(t[0] == rv[i as int]);
            assert(t.drop_first() =~= rv.skip(i + 1));
            assert(clean_rows_spec(t) == if excluded_row(strip_instance(rv[i as int].0)) {
                clean_rows_spec(rv.skip(i + 1))
            } else {
                seq![(strip_instance(rv[i as int].0), rv[i as int].1)] + clean_rows_spec(
                    rv.skip(i + 1),
                )
            });
            if !is_excluded {
                assert((row_views(out0) + (seq![
                    (strip_instance(rv[i as int].0), rv[i as int].1),
                ] + clean_rows_spec(rv.skip(i + 1)))) =~= (row_views(out@) + clean_rows_spec(
                    rv.skip(i + 1),
                )));
            }
        }
        i = i + 1;
    }
    proof {
        assert(rv.skip(n as int) =~= Seq::<(Seq<char>, int)>::empty());
        assert(row_views(out@) + Seq::<(Seq<char>, int)>::empty() =~= row_views(out@));
    }
    out
}

/// The group of `name` in `out`, if one exists yet.
fn find_group(out: &Vec<CounterGroup>, name: &String) -> (r: Option<usize>)
    ensures
        match r {
            Some(j) => 0 <= j < out@.len() && out@[j as int].name@ == name@,
            None => forall|j: int| 0 <= j < out@.len() ==> out@[j].name@ != name@,
        },
{
    let n = out.len();
    let mut j: usize = 0;
    while j < n
        invariant
            j <= n,
            n == out@.len(),
            forall|k: int| 0 <= k < j ==> out@[k].name@ != name@,
        decreases n - j,
    {
        if out[j].name == *name {
            return Some(j);
        }
        j = j + 1;
    }
    None
}

/// Groups cleaned rows by name, in order of first appearance, summing
/// the values and counting the instances.  The bounds keep every
/// group total well inside the `i64` range.
pub fn aggregate_rows(rows: &Vec<RawCounterRow>) -> (out: Vec<CounterGroup>)
    requires
        rows@.len() <= 65536,
        forall|i: int|
            0 <= i < rows@.len() ==> -1099511627776 <= #[trigger] rows@[i].value
                <= 1099511627776,
    ensures
        group_views(out@) == aggregate_spec(row_views(rows@)),
{
    let ghost rv = row_views(rows@);
    let n = rows.len();
    let mut out: Vec<CounterGroup> = Vec::new();
    let mut i: usize = 0;
    proof {
        assert(rv.subrange(0, 0) =~= Seq::<(Seq<char>, int)>::empty());
        assert(group_views(out@) =~= aggregate_spec(rv.subrange(0, 0)));
    }
    while i < n
        invariant
            i <= n,
            n == rows@.len(),
            rv == row_views(rows@),
            rv.len() <= 65536,
            forall|k: int| 0 <= k < rv.len() ==> -1099511627776 <= #[trigger] rv[k].1
                <= 1099511627776,
            group_views(out@) == aggregate_spec(rv.subrange(0, i as int)),
        decreases n - i,
    {
        let ghost pre = rv.subrange(0, i as int);
        let ghost pre1 = rv.subrange(0, i + 1);
        let ghost nm = rv[i as int].0;
        let ghost val = rv[i as int].1;
        proof {
            assert(pre1.drop_last() =~= pre);
            assert(pre1.last() == rv[i as int]);
            lemma_group_names_distinct(pre);
            lemma_group_names_complete(pre, nm);
            assert(forall|k: int| 0 <= k < pre.len() ==> pre[k] == rv[k]);
            lemma_sum_bound(pre, nm, 1099511627776);
        }
        let value = rows[i].value;
        match find_group(&out, &rows[i].name) {
            Some(j) => {
                proof {
                    // the groups seen so far are the group names of the prefix
                    assert(group_views(out@).len() == out@.len());
                    assert(aggregate_spec(pre).len() == group_names(pre).len());
                    assert(group_views(out@)[j as int] == aggregate_spec(pre)[j as int]);
                    assert(group_views(out@)[j as int].0 == out@[j as int].name@);
                    assert(aggregate_spec(pre)[j as int].0 == group_names(pre)[j as int]);
                    assert(group_names(pre)[j as int] == nm);
                    assert(group_names(pre).contains(nm));
                    assert(group_names(pre1) == group_names(pre));
                    assert(out@[j as int].total as int == sum_for(pre, nm));
                    assert(out@[j as int].count as int == count_for(pre, nm));
                    assert(count_for(pre, nm) * 1099511627776 <= 65536 * 1099511627776)
                        by (nonlinear_arith)
                        requires
                            0 <= count_for(pre, nm) <= 65536,
                    ;
                }
                let nm_clone = out[j].name.clone();
                let t = out[j].total;
                let c = out[j].count;
                proof {
                    assert(c as int <= 65536) by {
                        assert(count_for(pre, nm) <= pre.len());
                    }
                }
                out[j] = CounterGroup { name: nm_clone, total: t + value, count: c + 1 };
                proof {
                    let gn = group_names(pre1);
                    assert forall|k: int| 0 <= k < gn.len() implies group_views(out@)[k]
                        == aggregate_spec(pre1)[k] by {
                        if k == j as int {
                            assert(sum_for(pre1, nm) == sum_for(pre, nm) + val);
                            assert(count_for(pre1, nm) == count_for(pre, nm) + 1);
                        } else {
                            assert(gn[k] != nm) by {
                                lemma_group_names_distinct(pre);
                            }
                            assert(sum_for(pre1, gn[k]) == sum_for(pre, gn[k]));
                            assert(count_for(pre1, gn[k]) == count_for(pre, gn[k]));
                            assert(group_views(out@)[k] == aggregate_spec(pre)[k]);
                        }
                    }
                    assert(group_views(out@) =~= aggregate_spec(pre1));
                }
            },
            None => {
                proof {
                    // no group bears the name, so no prefix row does either
                    assert(group_views(out@).len() == out@.len());
                    assert(aggregate_spec(pre).len() == group_names(pre).len());
                    assert forall|k: int|
                        0 <= k < group_names(pre).len() implies group_names(pre)[k] != nm by {
                        assert(group_views(out@)[k] == aggregate_spec(pre)[k]);
                        assert(group_views(out@)[k].0 == out@[k].name@);
                        assert(aggregate_spec(pre)[k].0 == group_names(pre)[k]);
                        assert(out@[k].name@ != nm);
                    }
                    assert(!group_names(pre).contains(nm));
                    assert(!appears(pre, nm));
                    lemma_sum_absent(pre, nm);
                    assert(group_names(pre1) == group_names(pre).push(nm));
                }
                let nm_clone = rows[i].name.clone();
                let ghost out0 = out@;
                out.push(CounterGroup { name: nm_clone, total: value, count: 1 });
                proof {
                    let gn = group_names(pre1);
                    assert(out@.len() == out0.len() + 1);
                    assert(gn.len() == group_names(pre).len() + 1);
                    assert(out0.len() == group_names(pre).len());
                    assert forall|k: int| 0 <= k < gn.len() implies group_views(out@)[k]
                        == aggregate_spec(pre1)[k] by {
                        if k == gn.len() - 1 {
                            assert(gn[k] == nm);
                            assert(out@[k] == CounterGroup {
                                name: out@[k].name,
                                total: out@[k].total,
                                count: out@[k].count,
                            });
                            assert(out@[k].name@ == nm);
                            assert(out@[k].total as int == val);
                            assert(out@[k].count == 1);
                            assert(sum_for(pre1, nm) == sum_for(pre, nm) + val);
                            assert(count_for(pre1, nm) == count_for(pre, nm) + 1);
                        } else {
                            assert(gn[k] == group_names(pre)[k]);
                            assert(gn[k] != nm);
                            assert(sum_for(pre1, gn[k]) == sum_for(pre, gn[k]));
                            assert(count_for(pre1, gn[k]) == count_for(pre, gn[k]));
                            assert(out@[k] == out0[k]);
                            assert(group_views(out@)[k] == group_views(out0)[k]);
                            assert(group_views(out0)[k] == aggregate_spec(pre)[k]);
                        }
                    }
                    assert(group_views(out@) =~= aggregate_spec(pre1));
                }
            },
        }
        i = i + 1;
    }
    proof {
        assert(rv.subrange(0, n as int) =~= rv);
    }
    out
}

/// Zips the CPU and memory groupings positionally into the process
/// table: names and instance counts come from the CPU side, as many
/// rows as the shorter side has.
pub fn merge_counter_groups(cpu: &Vec<CounterGroup>, ram: &Vec<CounterGroup>) -> (out: Vec<
    Process,
>)
    ensures
        out@.len() == if cpu@.len() <= ram@.len() {
            cpu@.len()
        } else {
            ram@.len()
        },
        forall|i: int|
            0 <= i < out@.len() ==> {
                &&& (#[trigger] out@[i]).name@ == cpu@[i].name@
                &&& out@[i].cpu.thousandths == cpu@[i].total
                &&& out@[i].memory == ram@[i].total
                &&& out@[i].count == cpu@[i].count
            },
{
    let n = if cpu.len() <= ram.len() {
        cpu.len()
    } else {
        ram.len()
    };
    let mut out: Vec<Process> = Vec::new();
    let mut i: usize = 0;
    while i < n
        invariant
            i <= n,
            n == if cpu@.len() <= ram@.len() {
                cpu@.len()
            } else {
                ram@.len()
            },
            out@.len() == i,
            forall|k: int|
                0 <= k < i ==> {
                    &&& (#[trigger] out@[k]).name@ == cpu@[k].name@
                    &&& out@[k].cpu.thousandths == cpu@[k].total
                    &&& out@[k].memory == ram@[k].total
                    &&& out@[k].count == cpu@[k].count
                },
        decreases n - i,
    {
        out.push(
            Process {
                name: cpu[i].name.clone(),
                cpu: Milli { thousandths: cpu[i].total },
                memory: ram[i].total,
                count: cpu[i].count,
            },
        );
        i = i + 1;
    }
    out
}

/// The whole per-process pipeline: cleans both raw counter arrays,
/// groups each by base name, and zips them into the process table.
pub fn aggregate_process_rows(cpu_rows: &Vec<RawCounterRow>, ram_rows: &Vec<RawCounterRow>) -> (out:
    Vec<Process>)
    requires
        cpu_rows@.len() <= 65536,
        ram_rows@.len() <= 65536,
        forall|i: int|
            0 <= i < cpu_rows@.len() ==> -1099511627776 <= #[trigger] cpu_rows@[i].value
                <= 1099511627776,
        forall|i: int|
            0 <= i < ram_rows@.len() ==> -1099511627776 <= #[trigger] ram_rows@[i].value
                <= 1099511627776,
    ensures
        ({
            let ca = aggregate_spec(clean_rows_spec(row_views(cpu_rows@)));
            let ra = aggregate_spec(clean_rows_spec(row_views(ram_rows@)));
            &&& out@.len() == if ca.len() <= ra.len() {
                ca.len()
            } else {
                ra.len()
            }
            &&& forall|i: int|
                0 <= i < out@.len() ==> {
                    &&& (#[trigger] out@[i]).name@ == ca[i].0
                    &&& out@[i].cpu.thousandths as int == ca[i].1
                    &&& out@[i].memory as int == ra[i].1
                    &&& out@[i].count as int == ca[i].2
                }
        }),
{
    proof {
        lemma_clean_bounds(row_views(cpu_rows@), 1099511627776);
        lemma_clean_bounds(row_views(ram_rows@), 1099511627776);
    }
    let cpu_clean = clean_rows(cpu_rows);
    let ram_clean = clean_rows(ram_rows);
    proof {
        assert(cpu_clean@.len() == row_views(cpu_clean@).len());
        assert(ram_clean@.len() == row_views(ram_clean@).len());
        assert forall|i: int| 0 <= i < cpu_clean@.len() implies -1099511627776 <= #[trigger] cpu_clean@[i].value <= 1099511627776 by {
            assert(row_views(cpu_clean@)[i].1 == cpu_clean@[i].value as int);
        }
        assert forall|i: int| 0 <= i < ram_clean@.len() implies -1099511627776 <= #[trigger] ram_clean@[i].value <= 1099511627776 by {
            assert(row_views(ram_clean@)[i].1 == ram_clean@[i].value as int);
        }
    }
    let cpu_groups = aggregate_rows(&cpu_clean);
    let ram_groups = aggregate_rows(&ram_clean);
    merge_counter_groups(&cpu_groups, &ram_groups)
}

} // verus!
