use vstd::prelude::*;
use crate::simulation::{texts, PlannerLog, SimulationState, StepLog};
use crate::states::AppState;
use crate::text::{chars_of, ends_with, has_suffix, replace_all, replace_chars, str_equals, string_of};

verus! {

broadcast use vstd::seq_lib::group_to_multiset_ensures;

/// The buttons of the main menu.
#[derive(Clone, Copy, PartialEq, Eq, Structural, Debug)]
pub enum MenuAction {
    Play2D,
    Play3D,
}

/// The screen a main-menu button leads to.
pub fn main_menu_target(action: MenuAction) -> (s: AppState)
    ensures
        s == match action {
            MenuAction::Play2D => AppState::AlgorithmSelection2D,
            MenuAction::Play3D => AppState::AlgorithmSelection3D,
        },
{
    match action {
        MenuAction::Play2D => AppState::AlgorithmSelection2D,
        MenuAction::Play3D => AppState::AlgorithmSelection3D,
    }
}

/// The algorithm works with path costs (g): A*, uniform-cost search, Dijkstra.
pub open spec fn shows_g(algorithm: Seq<char>) -> bool {
    algorithm == "AStar"@ || algorithm == "UCS"@ || algorithm == "Dijkstra"@
}

/// The algorithm works with heuristic estimates (h): A*, greedy best-first.
pub open spec fn shows_h(algorithm: Seq<char>) -> bool {
    algorithm == "AStar"@ || algorithm == "GBFS"@
}

/// One row of the calculation table: the node, its f cost, and its g and h
/// costs when the algorithm has them (float bit patterns).
#[derive(Clone, Copy, PartialEq, Eq, Structural, Debug)]
pub struct CostRow {
    pub index: i64,
    pub f_bits: u64,
    pub g_bits: Option<u64>,
    pub h_bits: Option<u64>,
}

pub open spec fn cost_row(step: StepLog, algorithm: Seq<char>) -> CostRow {
    CostRow {
        index: step.index,
        f_bits: step.f_bits,
        g_bits: if shows_g(algorithm) { Some(step.g_bits) } else { None },
        h_bits: if shows_h(algorithm) { Some(step.h_bits) } else { None },
    }
}

/// The calculation table: the steps newest first.
pub open spec fn cost_rows(history: Seq<StepLog>, algorithm: Seq<char>) -> Seq<CostRow> {
    Seq::new(history.len(), |i: int| cost_row(history[history.len() - 1 - i], algorithm))
}

/// What the log panel shows: "Standby" when there is no system line, the
/// running time while a plan is awaited, and the calculation table unless no
/// step came and no plan is awaited.
pub struct LogPanel {
    pub standby: bool,
    pub show_progress: bool,
    pub rows: Option<Vec<CostRow>>,
}

pub fn log_panel(state: &SimulationState, log: &PlannerLog, algorithm: &str) -> (p: LogPanel)
    ensures
        p.standby == (log.lines().len() == 0),
        p.show_progress == state.is_calculating,
        (log.history@.len() == 0 && !state.is_calculating) ==> p.rows is None,
        !(log.history@.len() == 0 && !state.is_calculating) ==> (p.rows matches Some(rows) && rows@
            == cost_rows(log.history@, algorithm@)),
{
    let standby = log.system_logs.len() == 0;
    if log.history.len() == 0 && !state.is_calculating {
        return LogPanel { standby, show_progress: state.is_calculating, rows: None };
    }
    let g = str_equals(algorithm, "AStar") || str_equals(algorithm, "UCS") || str_equals(algorithm, "Dijkstra");
    let h = str_equals(algorithm, "AStar") || str_equals(algorithm, "GBFS");
    let n = log.history.len();
    let mut rows: Vec<CostRow> = Vec::new();
    for i in 0..n
        invariant
            n == log.history@.len(),
            g == shows_g(algorithm@),
            h == shows_h(algorithm@),
            rows@ == cost_rows(log.history@.subrange(n - i, n as int), algorithm@),
    {
        let step = log.history[n - 1 - i];
        rows.push(
            CostRow {
                index: step.index,
                f_bits: step.f_bits,
                g_bits: if g { Some(step.g_bits) } else { None },
                h_bits: if h { Some(step.h_bits) } else { None },
            },
        );
        assert(rows@ =~= cost_rows(log.history@.subrange(n - (i + 1), n as int), algorithm@));
    }
    assert(log.history@.subrange(0, n as int) =~= log.history@);
    LogPanel { standby, show_progress: state.is_calculating, rows: Some(rows) }
}

/// The image shown under the grid for the map `map_name`: the map's picture,
/// its `.yaml` names turned into `.png`, in the maps folder; none without a map.
pub open spec fn map_image_path_spec(map_name: Seq<char>) -> Seq<char> {
    "Test/maps/"@ + replace_all(map_name, ".yaml"@, ".png"@)
}

pub fn map_image_path(map_name: &str) -> (r: Option<String>)
    ensures
        map_name@.len() == 0 ==> r is None,
        map_name@.len() > 0 ==> (r matches Some(p) && p@ == map_image_path_spec(map_name@)),
{
    if map_name.is_empty() {
        return None;
    }
    let from = chars_of(".yaml");
    proof {
        reveal_strlit(".yaml");
    }
    assert(from@.len() == 5);
    let mut p = chars_of("Test/maps/");
    let replaced = replace_chars(&chars_of(map_name), &from, &chars_of(".png"));
    let mut i: usize = 0;
    let ghost start = p@;
    while i < replaced.len()
        invariant
            i <= replaced@.len(),
            p@ == start + replaced@.take(i as int),
        decreases replaced@.len() - i,
    {
        p.push(replaced[i]);
        assert(replaced@.take(i + 1) =~= replaced@.take(i as int).push(replaced@[i as int]));
        i = i + 1;
    }
    assert(replaced@.take(i as int) =~= replaced@);
    Some(string_of(&p))
}

/// `a` comes before `b` or equals it, comparing characters by code point and
/// a proper prefix first; for strings this is the order of their UTF-8 bytes,
/// which is how `String`s sort.
pub open spec fn lex_le(a: Seq<char>, b: Seq<char>) -> bool
    decreases a.len(),
{
    if a.len() == 0 {
        true
    } else if b.len() == 0 {
        false
    } else if (a[0] as u32) < (b[0] as u32) {
        true
    } else if (a[0] as u32) > (b[0] as u32) {
        false
    } else {
        lex_le(a.drop_first(), b.drop_first())
    }
}

pub proof fn lemma_lex_total(a: Seq<char>, b: Seq<char>)
    ensures
        lex_le(a, b) || lex_le(b, a),
    decreases a.len(),
{
    if a.len() > 0 && b.len() > 0 && a[0] as u32 == b[0] as u32 {
        lemma_lex_total(a.drop_first(), b.drop_first());
    }
}

pub proof fn lemma_lex_trans(a: Seq<char>, b: Seq<char>, c: Seq<char>)
    requires
        lex_le(a, b),
        lex_le(b, c),
    ensures
        lex_le(a, c),
    decreases a.len(),
{
    if a.len() > 0 && b.len() > 0 && c.len() > 0 {
        if a[0] as u32 == b[0] as u32 && b[0] as u32 == c[0] as u32 {
            lemma_lex_trans(a.drop_first(), b.drop_first(), c.drop_first());
        }
    }
}

pub fn lex_le_chars(a: &Vec<char>, b: &Vec<char>) -> (r: bool)
    ensures
        r == lex_le(a@, b@),
{
    let mut i: usize = 0;
    assert(a@.skip(0) =~= a@);
    assert(b@.skip(0) =~= b@);
    while i < a.len() && i < b.len() && (a[i] as u32) == (b[i] as u32)
        invariant
            i <= a@.len(),
            i <= b@.len(),
            lex_le(a@, b@) == lex_le(a@.skip(i as int), b@.skip(i as int)),
        decreases a@.len() - i,
    {
        assert(a@.skip(i as int).drop_first() =~= a@.skip(i + 1));
        assert(b@.skip(i as int).drop_first() =~= b@.skip(i + 1));
        assert(a@.skip(i as int)[0] == a@[i as int]);
        assert(b@.skip(i as int)[0] == b@[i as int]);
        i = i + 1;
    }
    if i == a.len() {
        assert(a@.skip(i as int).len() == 0);
        true
    } else if i == b.len() {
        assert(b@.skip(i as int).len() == 0);
        false
    } else {
        let x = a[i];
        let y = b[i];
        assert(a@.skip(i as int)[0] == x);
        assert(b@.skip(i as int)[0] == y);
        (x as u32) < (y as u32)
    }
}

/// Every text of `s` comes before or equals the ones after it.
pub open spec fn sorted_texts(s: Seq<Seq<char>>) -> bool {
    forall|i: int, j: int| 0 <= i < j < s.len() ==> lex_le(#[trigger] s[i], #[trigger] s[j])
}

/// The names that end with `ext`.
pub open spec fn with_extension(names: Seq<Seq<char>>, ext: Seq<char>) -> Seq<Seq<char>> {
    names.filter(|n: Seq<char>| ends_with(n, ext))
}

pub proof fn lemma_texts_insert(v: Seq<String>, k: int, s: String)
    requires
        0 <= k <= v.len(),
    ensures
        texts(v.insert(k, s)) == texts(v).insert(k, s@),
{
    assert(texts(v.insert(k, s)) =~= texts(v).insert(k, s@));
}

/// The file names among `names` that end with `ext`, sorted: the files a
/// selection list offers.
pub fn select_files(names: &Vec<String>, ext: &str) -> (r: Vec<String>)
    ensures
        sorted_texts(texts(r@)),
        texts(r@).to_multiset() == with_extension(texts(names@), ext@).to_multiset(),
{
    let ext_chars = chars_of(ext);
    let mut out: Vec<String> = Vec::new();
    let n = names.len();
    let ghost all = texts(names@);
    let ghost pred = |s: Seq<char>| ends_with(s, ext@);
    for i in 0..n
        invariant
            n == names@.len(),
            all == texts(names@),
            ext_chars@ == ext@,
            pred == (|s: Seq<char>| ends_with(s, ext@)),
            sorted_texts(texts(out@)),
            texts(out@).to_multiset() == all.take(i as int).filter(pred).to_multiset(),
    {
        let name_chars = chars_of(names[i].as_str());
        proof {
            assert(all.take(i + 1) =~= all.take(i as int).push(all[i as int]));
            all.take(i as int).lemma_filter_push(all[i as int], pred);
        }
        if has_suffix(&name_chars, &ext_chars) {
            let mut k: usize = 0;
            while k < out.len() && lex_le_chars(&chars_of(out[k].as_str()), &name_chars)
                invariant
                    k <= out@.len(),
                    forall|j: int| 0 <= j < k ==> lex_le(#[trigger] texts(out@)[j], name_chars@),
                decreases out@.len() - k,
            {
                k = k + 1;
            }
            let name = names[i].clone();
            let ghost before = texts(out@);
            proof {
                lemma_texts_insert(out@, k as int, name);
                if k < out@.len() {
                    lemma_lex_total(before[k as int], name_chars@);
                }
                let after = before.insert(k as int, name_chars@);
                assert forall|a: int, b: int| 0 <= a < b < after.len() implies lex_le(
                    #[trigger] after[a],
                    #[trigger] after[b],
                ) by {
                    if b < k {
                        assert(after[a] == before[a] && after[b] == before[b]);
                    } else if b == k {
                        assert(after[a] == before[a]);
                    } else if a < k {
                        assert(after[a] == before[a] && after[b] == before[b - 1]);
                        if a < b - 1 {
                        }
                    } else if a == k {
                        assert(after[b] == before[b - 1]);
                        if b - 1 > k {
                            lemma_lex_trans(name_chars@, before[k as int], before[b - 1]);
                        }
                    } else {
                        assert(after[a] == before[a - 1] && after[b] == before[b - 1]);
                    }
                }
            }
            out.insert(k, name);
        }
    }
    assert(all.take(n as int) =~= all);
    out
}


/// Row `k` of the calculation table is the `k`-th newest step: its index and
/// f cost, its own g cost when the algorithm is A*, uniform-cost search or
/// Dijkstra, and its own h cost when the algorithm is A* or greedy best-first.
pub proof fn lemma_cost_rows(history: Seq<StepLog>, algorithm: Seq<char>)
    ensures
        cost_rows(history, algorithm).len() == history.len(),
        forall|k: int|
            0 <= k < history.len() ==> {
                let step = history[history.len() - 1 - k];
                let row = #[trigger] cost_rows(history, algorithm)[k];
                &&& row.index == step.index
                &&& row.f_bits == step.f_bits
                &&& row.g_bits == if algorithm == "AStar"@ || algorithm == "UCS"@ || algorithm
                    == "Dijkstra"@ {
                    Some(step.g_bits)
                } else {
                    None
                }
                &&& row.h_bits == if algorithm == "AStar"@ || algorithm == "GBFS"@ {
                    Some(step.h_bits)
                } else {
                    None
                }
            },
{
}

} // verus!
