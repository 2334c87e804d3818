use vstd::prelude::*;
use crate::text::{
    chars_of, extend_chars, has_prefix, is_white_space, leading_ws, lemma_ws_prefix_len,
    lemma_ws_suffix_len, slice_chars, starts_with, string_of, trim, trim_chars, ws_prefix_end,
    ws_prefix_len,
};

verus! {

/// Where the planner container finds the maps, followed by the map's file name.
pub open spec fn docker_map_path_spec(map_name: Seq<char>) -> Seq<char> {
    "/workspace/src/navigation/maps/"@ + map_name
}

/// The path under which the planner container sees the map `map_name`.
pub fn docker_map_path(map_name: &str) -> (p: String)
    ensures
        p@ == docker_map_path_spec(map_name@),
{
    let mut p = String::from_str("/workspace/src/navigation/maps/");
    p.append(map_name);
    p
}

/// Index of the first line feed in `s`, or `s.len()` when there is none.
pub open spec fn line_end(s: Seq<char>) -> nat
    decreases s.len(),
{
    if s.len() == 0 || s[0] == '\n' {
        0
    } else {
        1 + line_end(s.drop_first())
    }
}

pub proof fn lemma_line_end_bound(s: Seq<char>)
    ensures
        line_end(s) <= s.len(),
    decreases s.len(),
{
    if s.len() > 0 && s[0] != '\n' {
        lemma_line_end_bound(s.drop_first());
    }
}

pub proof fn lemma_line_end(s: Seq<char>, e: int)
    requires
        0 <= e <= s.len(),
        forall|k: int| 0 <= k < e ==> #[trigger] s[k] != '\n',
        e == s.len() || s[e] == '\n',
    ensures
        line_end(s) == e,
    decreases e,
{
    if e > 0 {
        lemma_line_end(s.drop_first(), e - 1);
    }
}

/// A line that was ended by a line feed loses one carriage return before it.
pub open spec fn strip_cr(l: Seq<char>) -> Seq<char> {
    if l.len() > 0 && l.last() == '\r' {
        l.drop_last()
    } else {
        l
    }
}

/// The lines of `s` as `str::lines` yields them: split at each line feed, a
/// carriage return just before a line feed dropped, and no empty line after a
/// final line feed.
pub open spec fn lines(s: Seq<char>) -> Seq<Seq<char>>
    decreases s.len(),
{
    if s.len() == 0 {
        seq![]
    } else {
        let e = line_end(s);
        proof {
            lemma_line_end_bound(s);
        }
        if e == s.len() {
            seq![s]
        } else {
            seq![strip_cr(s.take(e as int))] + lines(s.skip(e + 1 as int))
        }
    }
}

/// The lines `ls` joined by line feeds.
pub open spec fn join_lines(ls: Seq<Seq<char>>) -> Seq<char>
    decreases ls.len(),
{
    if ls.len() == 0 {
        seq![]
    } else if ls.len() == 1 {
        ls[0]
    } else {
        join_lines(ls.drop_last()) + seq!['\n'] + ls.last()
    }
}

/// The line that points the map server at `map_name`, indented by `indent`.
pub open spec fn yaml_filename_line(indent: Seq<char>, map_name: Seq<char>) -> Seq<char> {
    indent + "yaml_filename: \""@ + docker_map_path_spec(map_name) + "\""@
}

/// Where the scan of the parameter file stands: inside the `map_server:`
/// section, and inside its `ros__parameters:` block.
#[derive(Clone, Copy)]
pub struct ScanState {
    pub in_map_server: bool,
    pub in_ros_params: bool,
}

/// One line of the parameter file: what it becomes, and the scan state after it.
pub open spec fn rewrite_line(line: Seq<char>, st: ScanState, map_name: Seq<char>) -> (Seq<char>, ScanState) {
    let t = trim(line);
    if starts_with(t, "map_server:"@) {
        (line, ScanState { in_map_server: true, in_ros_params: st.in_ros_params })
    } else if st.in_map_server && starts_with(t, "ros__parameters:"@) {
        (line, ScanState { in_map_server: true, in_ros_params: true })
    } else if st.in_map_server && st.in_ros_params && starts_with(t, "yaml_filename:"@) {
        (
            yaml_filename_line(leading_ws(line), map_name),
            ScanState { in_map_server: false, in_ros_params: false },
        )
    } else if st.in_map_server && t.len() != 0 && !starts_with(line, " "@) {
        (line, ScanState { in_map_server: false, in_ros_params: false })
    } else {
        (line, st)
    }
}

/// The lines `ls` rewritten one after another from the start of the file.
pub open spec fn rewrite_lines(ls: Seq<Seq<char>>, map_name: Seq<char>) -> (Seq<Seq<char>>, ScanState)
    decreases ls.len(),
{
    if ls.len() == 0 {
        (seq![], ScanState { in_map_server: false, in_ros_params: false })
    } else {
        let (out, st) = rewrite_lines(ls.drop_last(), map_name);
        let (l, st2) = rewrite_line(ls.last(), st, map_name);
        (out.push(l), st2)
    }
}

/// The navigation parameters `content` with the map server's `yaml_filename`
/// pointed at `map_name`.
pub open spec fn rewrite_params(content: Seq<char>, map_name: Seq<char>) -> Seq<char> {
    join_lines(rewrite_lines(lines(content), map_name).0)
}

/// The contents of the character vectors in `v`.
pub open spec fn views(v: Seq<Vec<char>>) -> Seq<Seq<char>> {
    Seq::new(v.len(), |i: int| v[i]@)
}

/// The lines of `s` (`str::lines`).
pub fn split_lines(s: &Vec<char>) -> (r: Vec<Vec<char>>)
    ensures
        views(r@) == lines(s@),
{
    let mut out: Vec<Vec<char>> = Vec::new();
    let mut i: usize = 0;
    assert(s@.skip(0) =~= s@);
    while i < s.len()
        invariant
            i <= s@.len(),
            lines(s@) == views(out@) + lines(s@.skip(i as int)),
        decreases s@.len() - i,
    {
        let mut j = i;
        while j < s.len() && s[j] != '\n'
            invariant
                i <= j <= s@.len(),
                forall|k: int| i <= k < j ==> #[trigger] s@[k] != '\n',
            decreases s@.len() - j,
        {
            j = j + 1;
        }
        let ghost rest = s@.skip(i as int);
        proof {
            assert forall|k: int| 0 <= k < j - i implies #[trigger] rest[k] != '\n' by {
                assert(rest[k] == s@[k + i]);
            }
            if j < s.len() {
                assert(rest[j - i] == s@[j as int]);
            }
            lemma_line_end(rest, j - i);
        }
        let ghost old_out = out@;
        if j == s.len() {
            let l = slice_chars(s, i, j);
            assert(l@ =~= rest);
            out.push(l);
            assert(s@.skip(j as int) =~= Seq::<char>::empty());
            assert(views(out@) =~= views(old_out) + seq![rest]);
            i = j;
        } else {
            let mut l = slice_chars(s, i, j);
            assert(l@ =~= rest.take(j - i));
            if l.len() > 0 && l[l.len() - 1] == '\r' {
                l.pop();
            }
            assert(l@ =~= strip_cr(rest.take(j - i)));
            out.push(l);
            assert(rest.skip(j - i + 1) =~= s@.skip(j + 1));
            assert(views(out@) =~= views(old_out) + seq![strip_cr(rest.take(j - i))]);
            assert(lines(rest) == seq![strip_cr(rest.take(j - i))] + lines(s@.skip(j + 1)));
            assert(views(out@) + lines(s@.skip(j + 1)) =~= views(old_out) + (seq![
                strip_cr(rest.take(j - i)),
            ] + lines(s@.skip(j + 1))));
            i = j + 1;
        }
    }
    assert(lines(s@.skip(i as int)) =~= Seq::<Seq<char>>::empty());
    assert(views(out@) + Seq::<Seq<char>>::empty() =~= views(out@));
    out
}


/// One line of the parameter file rewritten (see `rewrite_line`).
pub fn rewrite_one_line(line: &Vec<char>, st: ScanState, map_name: &str) -> (r: (Vec<char>, ScanState))
    ensures
        (r.0@, r.1) == rewrite_line(line@, st, map_name@),
{
    let t = trim_chars(line);
    let map_server = chars_of("map_server:");
    let ros_params = chars_of("ros__parameters:");
    let yaml_filename = chars_of("yaml_filename:");
    let space = chars_of(" ");
    if has_prefix(&t, &map_server) {
        (slice_chars(line, 0, line.len()), ScanState { in_map_server: true, in_ros_params: st.in_ros_params })
    } else if st.in_map_server && has_prefix(&t, &ros_params) {
        (slice_chars(line, 0, line.len()), ScanState { in_map_server: true, in_ros_params: true })
    } else if st.in_map_server && st.in_ros_params && has_prefix(&t, &yaml_filename) {
        let mut l = slice_chars(line, 0, ws_prefix_end(line));
        extend_chars(&mut l, &chars_of("yaml_filename: \""));
        extend_chars(&mut l, &chars_of(&docker_map_path(map_name)));
        extend_chars(&mut l, &chars_of("\""));
        (l, ScanState { in_map_server: false, in_ros_params: false })
    } else if st.in_map_server && t.len() != 0 && !has_prefix(line, &space) {
        (slice_chars(line, 0, line.len()), ScanState { in_map_server: false, in_ros_params: false })
    } else {
        (slice_chars(line, 0, line.len()), st)
    }
}

/// The navigation parameters `content` with the `yaml_filename` of the map
/// server's `ros__parameters` pointed at `map_name` as the planner container
/// sees it. The lines are rejoined by single line feeds.
pub fn rewrite_nav2_params(content: &str, map_name: &str) -> (r: String)
    ensures
        r@ == rewrite_params(content@, map_name@),
{
    let chars = chars_of(content);
    let ls = split_lines(&chars);
    let ghost all = views(ls@);
    let mut out: Vec<char> = Vec::new();
    let mut st = ScanState { in_map_server: false, in_ros_params: false };
    let ghost mut outs: Seq<Seq<char>> = seq![];
    let n = ls.len();
    for i in 0..n
        invariant
            n == ls@.len(),
            all == views(ls@),
            (outs, st) == rewrite_lines(all.take(i as int), map_name@),
            out@ == join_lines(outs),
            outs.len() == i,
    {
        let (l, st2) = rewrite_one_line(&ls[i], st, map_name);
        assert(all.take(i + 1).drop_last() =~= all.take(i as int));
        assert(all.take(i + 1).last() == ls@[i as int]@);
        if i > 0 {
            out.push('\n');
        }
        extend_chars(&mut out, &l);
        proof {
            let ghost new_outs = outs.push(l@);
            assert(new_outs.drop_last() =~= outs);
            assert(out@ =~= join_lines(new_outs));
            outs = new_outs;
        }
        st = st2;
    }
    assert(all.take(n as int) =~= all);
    string_of(&out)
}


/// The rewrite keeps the number of lines.
pub proof fn lemma_rewrite_keeps_line_count(ls: Seq<Seq<char>>, map_name: Seq<char>)
    ensures
        rewrite_lines(ls, map_name).0.len() == ls.len(),
    decreases ls.len(),
{
    if ls.len() > 0 {
        lemma_rewrite_keeps_line_count(ls.drop_last(), map_name);
    }
}

/// Only `yaml_filename:` lines change, each into the line that points at the
/// map with the same indentation; every other line is kept as it is.
pub proof fn lemma_rewrite_changes_only_filename_lines(ls: Seq<Seq<char>>, map_name: Seq<char>, k: int)
    requires
        0 <= k < ls.len(),
    ensures
        ({
            let out = rewrite_lines(ls, map_name).0;
            ||| out[k] == ls[k]
            ||| starts_with(trim(ls[k]), "yaml_filename:"@) && out[k] == yaml_filename_line(
                leading_ws(ls[k]),
                map_name,
            )
        }),
    decreases ls.len(),
{
    lemma_rewrite_keeps_line_count(ls.drop_last(), map_name);
    if k < ls.len() - 1 {
        lemma_rewrite_changes_only_filename_lines(ls.drop_last(), map_name, k);
    }
}

proof fn lemma_ws_prefix_all_ws(s: Seq<char>)
    ensures
        ws_prefix_len(s) <= s.len(),
        forall|k: int| 0 <= k < ws_prefix_len(s) ==> is_white_space(#[trigger] s[k]),
    decreases s.len(),
{
    if s.len() > 0 && is_white_space(s[0]) {
        lemma_ws_prefix_all_ws(s.drop_first());
        assert forall|k: int| 0 <= k < ws_prefix_len(s) implies is_white_space(#[trigger] s[k]) by {
            if k > 0 {
                assert(s[k] == s.drop_first()[k - 1]);
            }
        }
    }
}

/// The part of a map line after its indentation.
pub open spec fn filename_tail(map_name: Seq<char>) -> Seq<char> {
    "yaml_filename: \""@ + docker_map_path_spec(map_name) + "\""@
}

/// What the map line's text starts and ends with.
proof fn lemma_filename_tail(map_name: Seq<char>)
    ensures
        filename_tail(map_name).len() > 16,
        filename_tail(map_name)[0] == 'y',
        filename_tail(map_name).last() == '"',
        starts_with(filename_tail(map_name), "yaml_filename:"@),
        !starts_with(filename_tail(map_name), "map_server:"@),
        !starts_with(filename_tail(map_name), "ros__parameters:"@),
        (forall|i: int| 0 <= i < map_name.len() ==> map_name[i] != '\n') ==> (forall|i: int|
            0 <= i < filename_tail(map_name).len() ==> #[trigger] filename_tail(map_name)[i]
                != '\n'),
{
    let tail = filename_tail(map_name);
    let head = "yaml_filename: \""@;
    let dir = "/workspace/src/navigation/maps/"@;
    reveal_strlit("yaml_filename: \"");
    reveal_strlit("\"");
    reveal_strlit("yaml_filename:");
    reveal_strlit("map_server:");
    reveal_strlit("ros__parameters:");
    reveal_strlit("/workspace/src/navigation/maps/");
    assert(tail =~= head + (dir + map_name) + "\""@);
    assert(tail[0] == 'y');
    assert(tail.take(14) =~= "yaml_filename:"@);
    assert(tail.take(11)[0] != "map_server:"@[0]);
    assert(tail.take(16)[0] != "ros__parameters:"@[0]);
    if forall|i: int| 0 <= i < map_name.len() ==> map_name[i] != '\n' {
        assert forall|i: int| 0 <= i < tail.len() implies #[trigger] tail[i] != '\n' by {
            if i < head.len() {
                assert(tail[i] == head[i]);
            } else if i < head.len() + dir.len() {
                assert(tail[i] == dir[i - head.len()]);
            } else if i < head.len() + dir.len() + map_name.len() {
                assert(tail[i] == map_name[i - head.len() - dir.len()]);
            } else {
                assert(tail[i] == '"');
            }
        }
    }
}

/// A map line trims to its text and keeps its indentation.
proof fn lemma_filename_line_trim(indent: Seq<char>, map_name: Seq<char>)
    requires
        forall|k: int| 0 <= k < indent.len() ==> is_white_space(#[trigger] indent[k]),
    ensures
        trim(yaml_filename_line(indent, map_name)) == filename_tail(map_name),
        leading_ws(yaml_filename_line(indent, map_name)) == indent,
{
    let tail = filename_tail(map_name);
    let l2 = yaml_filename_line(indent, map_name);
    lemma_filename_tail(map_name);
    assert(l2 =~= indent + tail);
    assert(l2[indent.len() as int] == tail[0]);
    assert forall|k: int| 0 <= k < indent.len() implies is_white_space(#[trigger] l2[k]) by {
        assert(l2[k] == indent[k]);
    }
    lemma_ws_prefix_len(l2, indent.len() as int);
    assert(l2.skip(indent.len() as int) =~= tail);
    lemma_ws_suffix_len(tail, tail.len() as int);
    assert(tail.take(tail.len() as int) =~= tail);
    assert(leading_ws(l2) =~= indent);
}

/// A line the rewrite produced is left alone by a second rewrite in the same state.
proof fn lemma_rewrite_line_stable(line: Seq<char>, st: ScanState, map_name: Seq<char>)
    ensures
        rewrite_line(rewrite_line(line, st, map_name).0, st, map_name) == rewrite_line(line, st, map_name),
{
    let t = trim(line);
    if !starts_with(t, "map_server:"@) && !(st.in_map_server && starts_with(t, "ros__parameters:"@))
        && st.in_map_server && st.in_ros_params && starts_with(t, "yaml_filename:"@) {
        lemma_ws_prefix_all_ws(line);
        let indent = leading_ws(line);
        assert forall|k: int| 0 <= k < indent.len() implies is_white_space(#[trigger] indent[k]) by {
            assert(indent[k] == line[k]);
        }
        lemma_filename_line_trim(indent, map_name);
        lemma_filename_tail(map_name);
    }
}

/// Rewriting the lines a second time changes nothing: the map is injected once.
pub proof fn lemma_rewrite_idempotent(ls: Seq<Seq<char>>, map_name: Seq<char>)
    ensures
        rewrite_lines(rewrite_lines(ls, map_name).0, map_name) == rewrite_lines(ls, map_name),
    decreases ls.len(),
{
    if ls.len() > 0 {
        lemma_rewrite_idempotent(ls.drop_last(), map_name);
        let (out, st) = rewrite_lines(ls.drop_last(), map_name);
        let (l, st2) = rewrite_line(ls.last(), st, map_name);
        lemma_rewrite_line_stable(ls.last(), st, map_name);
        assert(out.push(l).drop_last() =~= out);
    }
}


/// `l` holds no line feed.
pub open spec fn has_no_newline(l: Seq<char>) -> bool {
    forall|i: int| 0 <= i < l.len() ==> l[i] != '\n'
}

/// `l` ends with a carriage return.
pub open spec fn ends_with_cr(l: Seq<char>) -> bool {
    l.len() > 0 && l.last() == '\r'
}

proof fn lemma_line_end_props(s: Seq<char>)
    ensures
        line_end(s) <= s.len(),
        forall|k: int| 0 <= k < line_end(s) ==> #[trigger] s[k] != '\n',
        line_end(s) < s.len() ==> s[line_end(s) as int] == '\n',
    decreases s.len(),
{
    if s.len() > 0 && s[0] != '\n' {
        lemma_line_end_props(s.drop_first());
        assert forall|k: int| 0 <= k < line_end(s) implies #[trigger] s[k] != '\n' by {
            if k > 0 {
                assert(s[k] == s.drop_first()[k - 1]);
            }
        }
    }
}

/// No line of a text holds a line feed.
proof fn lemma_lines_no_newline(s: Seq<char>)
    ensures
        forall|k: int| 0 <= k < lines(s).len() ==> has_no_newline(#[trigger] lines(s)[k]),
    decreases s.len(),
{
    if s.len() > 0 {
        lemma_line_end_props(s);
        let e = line_end(s);
        if e < s.len() {
            lemma_lines_no_newline(s.skip(e + 1 as int));
            let first = strip_cr(s.take(e as int));
            assert(has_no_newline(first)) by {
                assert forall|i: int| 0 <= i < first.len() implies first[i] != '\n' by {
                    assert(first[i] == s[i]);
                }
            }
            assert forall|k: int| 0 <= k < lines(s).len() implies has_no_newline(
                #[trigger] lines(s)[k],
            ) by {
                if k > 0 {
                    assert(lines(s)[k] == lines(s.skip(e + 1 as int))[k - 1]);
                }
            }
        }
    }
}

proof fn lemma_join_front(ls: Seq<Seq<char>>)
    requires
        ls.len() >= 2,
    ensures
        join_lines(ls) == ls[0] + seq!['\n'] + join_lines(ls.drop_first()),
    decreases ls.len(),
{
    if ls.len() == 2 {
        assert(ls.drop_last().len() == 1);
        assert(ls.drop_first().len() == 1);
        assert(join_lines(ls.drop_last()) == ls[0]);
        assert(join_lines(ls.drop_first()) == ls[1]);
        assert(join_lines(ls) =~= ls[0] + seq!['\n'] + ls[1]);
    } else {
        lemma_join_front(ls.drop_last());
        assert(ls.drop_last().drop_first() =~= ls.drop_first().drop_last());
        assert(ls.drop_first().last() == ls.last());
        assert(join_lines(ls) =~= ls[0] + seq!['\n'] + join_lines(ls.drop_first()));
    }
}

/// Lines joined by line feeds read back as the same lines when none holds a
/// line feed, none but the last ends with a carriage return, and the last is
/// not empty.
proof fn lemma_lines_of_join(ls: Seq<Seq<char>>)
    requires
        forall|k: int| 0 <= k < ls.len() ==> has_no_newline(#[trigger] ls[k]),
        forall|k: int| 0 <= k < ls.len() - 1 ==> !ends_with_cr(#[trigger] ls[k]),
        ls.len() == 0 || ls.last().len() > 0,
    ensures
        lines(join_lines(ls)) == ls,
    decreases ls.len(),
{
    if ls.len() == 0 {
        assert(lines(join_lines(ls)) =~= ls);
    } else if ls.len() == 1 {
        let s = ls[0];
        assert(has_no_newline(s));
        lemma_line_end(s, s.len() as int);
        assert(lines(join_lines(ls)) =~= ls);
    } else {
        let rest = ls.drop_first();
        assert forall|k: int| 0 <= k < rest.len() implies has_no_newline(#[trigger] rest[k]) by {
            assert(rest[k] == ls[k + 1]);
        }
        assert forall|k: int| 0 <= k < rest.len() - 1 implies !ends_with_cr(#[trigger] rest[k]) by {
            assert(rest[k] == ls[k + 1]);
        }
        lemma_lines_of_join(rest);
        lemma_join_front(ls);
        let l0 = ls[0];
        let s = l0 + seq!['\n'] + join_lines(rest);
        assert(has_no_newline(l0));
        assert(!ends_with_cr(l0));
        assert forall|k: int| 0 <= k < l0.len() implies #[trigger] s[k] != '\n' by {
            assert(s[k] == l0[k]);
        }
        assert(s[l0.len() as int] == '\n');
        lemma_line_end(s, l0.len() as int);
        assert(s.take(l0.len() as int) =~= l0);
        assert(s.skip(l0.len() + 1 as int) =~= join_lines(rest));
        assert(lines(s) =~= seq![l0] + rest);
        assert(seq![l0] + rest =~= ls);
    }
}

/// Injecting the map into a parameter file that has already been given it
/// leaves the file as it is: the rewrite is idempotent on the text, for a
/// file whose lines end without carriage returns and whose last line is not
/// empty, and a map name without line feeds.
pub proof fn lemma_rewrite_params_idempotent(content: Seq<char>, map_name: Seq<char>)
    requires
        lines(content).len() == 0 || lines(content).last().len() > 0,
        forall|k: int| 0 <= k < lines(content).len() ==> !ends_with_cr(#[trigger] lines(content)[k]),
        has_no_newline(map_name),
    ensures
        rewrite_params(rewrite_params(content, map_name), map_name) == rewrite_params(content, map_name),
{
    let ls = lines(content);
    let out = rewrite_lines(ls, map_name).0;
    lemma_rewrite_keeps_line_count(ls, map_name);
    lemma_lines_no_newline(content);
    lemma_filename_tail(map_name);
    assert forall|k: int| 0 <= k < out.len() implies has_no_newline(#[trigger] out[k]) && !ends_with_cr(
        out[k],
    ) && (out[k].len() == 0 ==> out[k] == ls[k]) by {
        lemma_rewrite_changes_only_filename_lines(ls, map_name, k);
        if out[k] != ls[k] {
            let line = ls[k];
            let indent = leading_ws(line);
            let tail = filename_tail(map_name);
            assert(out[k] =~= indent + tail);
            assert(has_no_newline(line));
            lemma_ws_prefix_all_ws(line);
            assert forall|i: int| 0 <= i < out[k].len() implies out[k][i] != '\n' by {
                if i < indent.len() {
                    assert(out[k][i] == line[i]);
                } else {
                    assert(out[k][i] == tail[i - indent.len()]);
                }
            }
            assert(out[k].last() == tail.last());
        }
    }
    if out.len() > 0 {
        assert(out.last() == out[out.len() - 1]);
    }
    lemma_lines_of_join(out);
    lemma_rewrite_idempotent(ls, map_name);
}


/// The scan state after the first `k` lines.
pub open spec fn state_before(ls: Seq<Seq<char>>, k: int, map_name: Seq<char>) -> ScanState {
    rewrite_lines(ls.take(k), map_name).1
}

proof fn lemma_rewritten_line_at(ls: Seq<Seq<char>>, map_name: Seq<char>, k: int)
    requires
        0 <= k < ls.len(),
    ensures
        rewrite_lines(ls, map_name).0[k] == rewrite_line(ls[k], state_before(ls, k, map_name), map_name).0,
        state_before(ls, k + 1, map_name) == rewrite_line(ls[k], state_before(ls, k, map_name), map_name).1,
    decreases ls.len(),
{
    assert(ls.take(k + 1).drop_last() =~= ls.take(k));
    assert(ls.take(k + 1).last() == ls[k]);
    lemma_rewrite_keeps_line_count(ls.drop_last(), map_name);
    if k == ls.len() - 1 {
        assert(ls.drop_last() =~= ls.take(k));
    } else {
        lemma_rewritten_line_at(ls.drop_last(), map_name, k);
        assert(ls.drop_last().take(k) =~= ls.take(k));
        assert(ls.drop_last()[k] == ls[k]);
    }
}

proof fn lemma_key_prefixes_differ(t: Seq<char>)
    ensures
        starts_with(t, "ros__parameters:"@) ==> !starts_with(t, "map_server:"@),
        starts_with(t, "yaml_filename:"@) ==> !starts_with(t, "map_server:"@),
        starts_with(t, "yaml_filename:"@) ==> !starts_with(t, "ros__parameters:"@),
{
    reveal_strlit("ros__parameters:");
    reveal_strlit("map_server:");
    reveal_strlit("yaml_filename:");
    if starts_with(t, "ros__parameters:"@) && starts_with(t, "map_server:"@) {
        assert(t.take(16)[0] == t.take(11)[0]);
    }
    if starts_with(t, "yaml_filename:"@) && starts_with(t, "map_server:"@) {
        assert(t.take(14)[0] == t.take(11)[0]);
    }
    if starts_with(t, "yaml_filename:"@) && starts_with(t, "ros__parameters:"@) {
        assert(t.take(14)[0] == t.take(16)[0]);
    }
}

/// The lines strictly between `a` and `c` keep a `map_server:` block open:
/// each is blank after trimming or indented by a space, and none is a
/// `yaml_filename:` line.
pub open spec fn block_stays_open(ls: Seq<Seq<char>>, a: int, c: int) -> bool {
    forall|j: int|
        a < j < c ==> (trim(#[trigger] ls[j]).len() == 0 || starts_with(ls[j], " "@)) && !starts_with(
            trim(ls[j]),
            "yaml_filename:"@,
        )
}

proof fn lemma_block_state(ls: Seq<Seq<char>>, map_name: Seq<char>, a: int, b: int, c: int, j: int)
    requires
        0 <= a < b < c < ls.len(),
        a < j <= c,
        starts_with(trim(ls[a]), "map_server:"@),
        starts_with(trim(ls[b]), "ros__parameters:"@),
        block_stays_open(ls, a, c),
    ensures
        state_before(ls, j, map_name).in_map_server,
        j > b ==> state_before(ls, j, map_name).in_ros_params,
    decreases j,
{
    let i = j - 1;
    lemma_rewritten_line_at(ls, map_name, i);
    lemma_key_prefixes_differ(trim(ls[i]));
    if i > a {
        lemma_block_state(ls, map_name, a, b, c, i);
        assert(a < i < c);
        assert((trim(ls[i]).len() == 0 || starts_with(ls[i], " "@)) && !starts_with(trim(ls[i]), "yaml_filename:"@));
    }
}

/// Inside a `map_server:` block, once its `ros__parameters:` line has come,
/// the first `yaml_filename:` line is pointed at the map, whatever indented or
/// blank lines (comments among them) come between: only a non-blank line that
/// does not start with a space ends the block.
pub proof fn lemma_filename_in_block_is_rewritten(
    ls: Seq<Seq<char>>,
    map_name: Seq<char>,
    a: int,
    b: int,
    c: int,
)
    requires
        0 <= a < b < c < ls.len(),
        starts_with(trim(ls[a]), "map_server:"@),
        starts_with(trim(ls[b]), "ros__parameters:"@),
        starts_with(trim(ls[c]), "yaml_filename:"@),
        block_stays_open(ls, a, c),
    ensures
        rewrite_lines(ls, map_name).0[c] == ls[c].take(ws_prefix_len(ls[c]) as int)
            + "yaml_filename: \""@ + "/workspace/src/navigation/maps/"@ + map_name + "\""@,
{
    lemma_block_state(ls, map_name, a, b, c, c);
    lemma_rewritten_line_at(ls, map_name, c);
    lemma_key_prefixes_differ(trim(ls[c]));
    assert(rewrite_lines(ls, map_name).0[c] =~= ls[c].take(ws_prefix_len(ls[c]) as int)
        + "yaml_filename: \""@ + "/workspace/src/navigation/maps/"@ + map_name + "\""@);
}

} // verus!
