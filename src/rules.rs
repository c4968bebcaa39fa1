use vstd::prelude::*;
use crate::config::Task;
use crate::pattern::{pattern_compiles, pattern_finds, pattern_fires};
use crate::text::{split_spec, lines_spec, lemma_split_nonempty, split_chars, split_lines};

verus! {

/// A request to start `program` with `args`, with inherited standard streams.
pub struct SpawnRequest {
    pub program: String,
    pub args: Vec<String>,
}

impl View for SpawnRequest {
    type V = (Seq<char>, Seq<Seq<char>>);

    open spec fn view(&self) -> (Seq<char>, Seq<Seq<char>>) {
        (self.program@, self.args@.map_values(|a: String| a@))
    }
}

/// The program of a command line is what stands before its first space; the
/// arguments are the rest, split at every single space.
pub open spec fn request_spec(line: Seq<char>) -> (Seq<char>, Seq<Seq<char>>) {
    let words = split_spec(line, ' ');
    (words[0], words.drop_first())
}

/// Splits a command line into the program to start and its arguments.
pub fn parse_command(line: &str) -> (r: SpawnRequest)
    ensures
        r@ == request_spec(line@),
{
    let mut words = split_chars(line, ' ');
    proof {
        lemma_split_nonempty(line@, ' ');
    }
    let ghost w = words@;
    let program = words.remove(0);
    assert(words@.map_values(|a: String| a@) =~= split_spec(line@, ' ').drop_first()) by {
        assert(words@ =~= w.drop_first());
        assert(w.map_values(|a: String| a@) == split_spec(line@, ' '));
    }
    assert(program@ == split_spec(line@, ' ')[0]) by {
        assert(w.map_values(|a: String| a@)[0] == w[0]@);
    }
    SpawnRequest { program, args: words }
}

/// One spawn request for each command line, in order.
pub fn spawn_requests(lines: &Vec<String>) -> (r: Vec<SpawnRequest>)
    ensures
        r@.map_values(|q: SpawnRequest| q@) == lines@.map_values(|l: String| request_spec(l@)),
{
    let mut out: Vec<SpawnRequest> = Vec::new();
    let mut i: usize = 0;
    while i < lines.len()
        invariant
            i <= lines@.len(),
            out@.map_values(|q: SpawnRequest| q@) == lines@.subrange(0, i as int).map_values(
                |l: String| request_spec(l@),
            ),
        decreases lines@.len() - i,
    {
        let q = parse_command(lines[i].as_str());
        let ghost before = out@;
        out.push(q);
        assert(out@.map_values(|q: SpawnRequest| q@) =~= lines@.subrange(0, i + 1).map_values(
            |l: String| request_spec(l@),
        )) by {
            assert(out@ == before.push(q));
            assert(out@.map_values(|q: SpawnRequest| q@) =~= before.map_values(
                |q: SpawnRequest| q@,
            ).push(q@));
            assert(lines@.subrange(0, i + 1) =~= lines@.subrange(0, i as int).push(lines@[i as int]));
        }
        i = i + 1;
    }
    assert(lines@.subrange(0, i as int) =~= lines@);
    out
}

/// The command lines of the rules flagged in `hits`, rule after rule, each
/// rule's lines in the order they are written.
pub open spec fn collect_spec(tasks: Seq<Task>, hits: Seq<bool>) -> Seq<Seq<char>>
    decreases tasks.len(),
{
    if tasks.len() == 0 || hits.len() == 0 {
        Seq::empty()
    } else {
        let head = collect_spec(tasks.drop_last(), hits.drop_last());
        if hits.last() {
            head + lines_spec(tasks.last().command@)
        } else {
            head
        }
    }
}

/// Whether `task` fires for the executable path `path`: its pattern compiles
/// and matches somewhere in the path.
pub open spec fn rule_fires(task: Task, path: Seq<char>) -> bool {
    pattern_compiles(task.pattern@) && pattern_finds(task.pattern@, path)
}

/// Which rules of `tasks` fire for `path`.
pub open spec fn hits_spec(tasks: Seq<Task>, path: Seq<char>) -> Seq<bool> {
    Seq::new(tasks.len(), |i: int| rule_fires(tasks[i], path))
}

/// The command lines to run when `path` gains the focus.
pub open spec fn matched_spec(tasks: Seq<Task>, path: Seq<char>) -> Seq<Seq<char>> {
    collect_spec(tasks, hits_spec(tasks, path))
}

/// The spawn requests made when `path` gains the focus.
pub open spec fn dispatch_spec(tasks: Seq<Task>, path: Seq<char>) -> Seq<(Seq<char>, Seq<Seq<char>>)> {
    matched_spec(tasks, path).map_values(|l: Seq<char>| request_spec(l))
}

/// Gathers the command lines of the rules flagged in `hits`.
pub fn collect_commands(tasks: &Vec<Task>, hits: &Vec<bool>) -> (r: Vec<String>)
    requires
        hits@.len() == tasks@.len(),
    ensures
        r@.map_values(|l: String| l@) == collect_spec(tasks@, hits@),
{
    let mut out: Vec<String> = Vec::new();
    let mut i: usize = 0;
    while i < tasks.len()
        invariant
            i <= tasks@.len(),
            hits@.len() == tasks@.len(),
            out@.map_values(|l: String| l@) == collect_spec(
                tasks@.subrange(0, i as int),
                hits@.subrange(0, i as int),
            ),
        decreases tasks@.len() - i,
    {
        let ghost t = tasks@.subrange(0, i + 1);
        let ghost h = hits@.subrange(0, i + 1);
        assert(t.drop_last() =~= tasks@.subrange(0, i as int));
        assert(h.drop_last() =~= hits@.subrange(0, i as int));
        if hits[i] {
            let lines = split_lines(tasks[i].command.as_str());
            let mut j: usize = 0;
            let ghost start = out@.map_values(|l: String| l@);
            while j < lines.len()
                invariant
                    j <= lines@.len(),
                    out@.map_values(|l: String| l@) == start + lines@.subrange(
                        0,
                        j as int,
                    ).map_values(|l: String| l@),
                decreases lines@.len() - j,
            {
                let ghost before = out@;
                let line = lines[j].clone();
                out.push(line);
                assert(out@.map_values(|l: String| l@) =~= start + lines@.subrange(
                    0,
                    j + 1,
                ).map_values(|l: String| l@)) by {
                    assert(out@ == before.push(line));
                    assert(out@.map_values(|l: String| l@) =~= before.map_values(
                        |l: String| l@,
                    ).push(line@));
                    assert(lines@.subrange(0, j + 1) =~= lines@.subrange(0, j as int).push(
                        lines@[j as int],
                    ));
                }
                j = j + 1;
            }
            assert(lines@.subrange(0, j as int) =~= lines@);
            assert(out@.map_values(|l: String| l@) == collect_spec(t, h));
        } else {
            assert(out@.map_values(|l: String| l@) == collect_spec(t, h));
        }
        i = i + 1;
    }
    assert(tasks@.subrange(0, i as int) =~= tasks@);
    assert(hits@.subrange(0, i as int) =~= hits@);
    out
}

/// For each rule, whether it fires for `path`. A rule whose pattern does not
/// compile fires for no path.
pub fn match_rules(tasks: &Vec<Task>, path: &str) -> (r: Vec<bool>)
    ensures
        r@ == hits_spec(tasks@, path@),
{
    let mut out: Vec<bool> = Vec::new();
    let mut i: usize = 0;
    while i < tasks.len()
        invariant
            i <= tasks@.len(),
            out@ == hits_spec(tasks@, path@).subrange(0, i as int),
        decreases tasks@.len() - i,
    {
        let fires = pattern_fires(tasks[i].pattern.as_str(), path);
        out.push(fires);
        assert(out@ =~= hits_spec(tasks@, path@).subrange(0, i + 1));
        i = i + 1;
    }
    assert(out@ =~= hits_spec(tasks@, path@));
    out
}

/// The command lines to run when the process at `path` gains the focus.
pub fn evaluate(tasks: &Vec<Task>, path: &str) -> (r: Vec<String>)
    ensures
        r@.map_values(|l: String| l@) == matched_spec(tasks@, path@),
{
    let hits = match_rules(tasks, path);
    collect_commands(tasks, &hits)
}

/// The spawn requests to make when the process at `path` gains the focus.
pub fn dispatch(tasks: &Vec<Task>, path: &str) -> (r: Vec<SpawnRequest>)
    ensures
        r@.map_values(|q: SpawnRequest| q@) == dispatch_spec(tasks@, path@),
{
    let lines = evaluate(tasks, path);
    let r = spawn_requests(&lines);
    assert(r@.map_values(|q: SpawnRequest| q@) =~= dispatch_spec(tasks@, path@));
    r
}

/// Gathering over two tables one after the other gathers each in turn.
pub proof fn lemma_collect_append(t1: Seq<Task>, h1: Seq<bool>, t2: Seq<Task>, h2: Seq<bool>)
    requires
        h1.len() == t1.len(),
        h2.len() == t2.len(),
    ensures
        collect_spec(t1 + t2, h1 + h2) == collect_spec(t1, h1) + collect_spec(t2, h2),
    decreases t2.len(),
{
    if t2.len() == 0 {
        assert(t1 + t2 =~= t1);
        assert(h1 + h2 =~= h1);
        assert(collect_spec(t2, h2) =~= Seq::<Seq<char>>::empty());
        assert(collect_spec(t1, h1) + collect_spec(t2, h2) =~= collect_spec(t1, h1));
    } else {
        lemma_collect_append(t1, h1, t2.drop_last(), h2.drop_last());
        assert((t1 + t2).drop_last() =~= t1 + t2.drop_last());
        assert((h1 + h2).drop_last() =~= h1 + h2.drop_last());
        if h2.last() {
            assert(collect_spec(t1 + t2, h1 + h2) =~= collect_spec(t1, h1) + collect_spec(t2, h2));
        } else {
            assert(collect_spec(t1 + t2, h1 + h2) =~= collect_spec(t1, h1) + collect_spec(t2, h2));
        }
    }
}

/// The rules that fire for a part of a table are the same rules as in the
/// whole table.
proof fn lemma_hits_subrange(tasks: Seq<Task>, path: Seq<char>, a: int, b: int)
    requires
        0 <= a <= b <= tasks.len(),
    ensures
        hits_spec(tasks, path).subrange(a, b) == hits_spec(tasks.subrange(a, b), path),
{
    assert(hits_spec(tasks, path).subrange(a, b) =~= hits_spec(tasks.subrange(a, b), path));
}

/// Splits the table at rule `k`: the commands are those of the rules before
/// it, then its own if it fires, then those of the rules after it.
pub proof fn lemma_matched_split(tasks: Seq<Task>, path: Seq<char>, k: int)
    requires
        0 <= k < tasks.len(),
    ensures
        matched_spec(tasks, path) == matched_spec(tasks.subrange(0, k), path) + (if rule_fires(
            tasks[k],
            path,
        ) {
            lines_spec(tasks[k].command@)
        } else {
            Seq::empty()
        }) + matched_spec(tasks.subrange(k + 1, tasks.len() as int), path),
{
    let n = tasks.len() as int;
    let h = hits_spec(tasks, path);
    let front = tasks.subrange(0, k);
    let one = tasks.subrange(k, k + 1);
    let back = tasks.subrange(k + 1, n);
    lemma_hits_subrange(tasks, path, 0, k);
    lemma_hits_subrange(tasks, path, k, k + 1);
    lemma_hits_subrange(tasks, path, k + 1, n);
    assert(tasks =~= front + one + back);
    assert(h =~= h.subrange(0, k) + h.subrange(k, k + 1) + h.subrange(k + 1, n));
    lemma_collect_append(front, h.subrange(0, k), one, h.subrange(k, k + 1));
    lemma_collect_append(
        front + one,
        h.subrange(0, k) + h.subrange(k, k + 1),
        back,
        h.subrange(k + 1, n),
    );
    let mid = collect_spec(one, h.subrange(k, k + 1));
    assert(one.drop_last() =~= Seq::<Task>::empty());
    assert(h.subrange(k, k + 1).drop_last() =~= Seq::<bool>::empty());
    assert(one.last() == tasks[k]);
    let h1 = h.subrange(k, k + 1);
    assert(h1.last() == rule_fires(tasks[k], path));
    assert(collect_spec(one.drop_last(), h1.drop_last()) == Seq::<Seq<char>>::empty());
    if rule_fires(tasks[k], path) {
        assert(mid == Seq::<Seq<char>>::empty() + lines_spec(tasks[k].command@));
        assert(mid =~= lines_spec(tasks[k].command@));
    } else {
        assert(mid =~= Seq::<Seq<char>>::empty());
    }
}

/// Order is kept: when rules `i` and `j` (with `i` before `j`) both fire,
/// all of rule `i`'s command lines come out, in order, before all of rule
/// `j`'s.
pub proof fn lemma_order_preserved(tasks: Seq<Task>, path: Seq<char>, i: int, j: int)
    requires
        0 <= i < j < tasks.len(),
        rule_fires(tasks[i], path),
        rule_fires(tasks[j], path),
    ensures
        matched_spec(tasks, path) == matched_spec(tasks.subrange(0, i), path) + lines_spec(
            tasks[i].command@,
        ) + matched_spec(tasks.subrange(i + 1, j), path) + lines_spec(tasks[j].command@)
            + matched_spec(tasks.subrange(j + 1, tasks.len() as int), path),
{
    let n = tasks.len() as int;
    lemma_matched_split(tasks, path, j);
    let front = tasks.subrange(0, j);
    lemma_matched_split(front, path, i);
    assert(front.subrange(0, i) =~= tasks.subrange(0, i));
    assert(front.subrange(i + 1, j) =~= tasks.subrange(i + 1, j));
    assert(front[i] == tasks[i]);
}

/// A rule whose pattern does not compile changes nothing: the commands are
/// those of the table without it.
pub proof fn lemma_pattern_isolation(tasks: Seq<Task>, path: Seq<char>, k: int)
    requires
        0 <= k < tasks.len(),
        !pattern_compiles(tasks[k].pattern@),
    ensures
        matched_spec(tasks, path) == matched_spec(tasks.remove(k), path),
{
    let n = tasks.len() as int;
    let rest = tasks.remove(k);
    lemma_matched_split(tasks, path, k);
    let h = hits_spec(rest, path);
    lemma_hits_subrange(rest, path, 0, k);
    lemma_hits_subrange(rest, path, k, n - 1);
    assert(rest =~= tasks.subrange(0, k) + tasks.subrange(k + 1, n));
    assert(rest.subrange(0, k) =~= tasks.subrange(0, k));
    assert(rest.subrange(k, n - 1) =~= tasks.subrange(k + 1, n));
    assert(h =~= h.subrange(0, k) + h.subrange(k, n - 1));
    lemma_collect_append(rest.subrange(0, k), h.subrange(0, k), rest.subrange(k, n - 1), h.subrange(k, n - 1));
    assert(matched_spec(tasks, path) =~= matched_spec(rest, path));
}

} // verus!
