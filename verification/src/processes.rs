use vstd::prelude::*;
use crate::telemetry::csv_separator;
use crate::text::{
    append_chars, chars_of, has_infix, join_with, law_split_join, lemma_join_last, law_split_pieces_avoid_separator, lemma_split_nonempty,
    lemma_split_pieces_keep_chars, lines_chars, lines_of, prepend_char, split_chars, split_on,
    string_of, strip_cr, trim, trim_chars, views,
};

verus! {

/// One process that nvidia-smi lists as running on the GPU.
pub struct ProcessEntry {
    /// The process id, as printed.
    pub pid: String,
    /// The executable's file name: the process name after its last `/`.
    pub name: String,
    /// The GPU memory it uses, as printed (MiB).
    pub memory: String,
}

/// The fields of an entry as plain text.
pub open spec fn entry_view(e: ProcessEntry) -> (Seq<char>, Seq<char>, Seq<char>) {
    (e.pid@, e.name@, e.memory@)
}

/// The views of a sequence of entries.
pub open spec fn entry_views(v: Seq<ProcessEntry>) -> Seq<(Seq<char>, Seq<char>, Seq<char>)> {
    Seq::new(v.len(), |i: int| entry_view(v[i]))
}

/// The last `/`-separated piece of a path: `path.split('/').last()`.
pub open spec fn base_name(path: Seq<char>) -> Seq<char> {
    split_on(path, seq!['/']).last()
}

/// The entry that one line of `nvidia-smi --query-compute-apps=pid,process_name,used_memory
/// --format=csv,noheader,nounits` describes: a line of exactly three
/// `", "`-separated fields.
pub open spec fn process_fields(line: Seq<char>) -> Option<(Seq<char>, Seq<char>, Seq<char>)> {
    let f = split_on(line, csv_separator());
    if f.len() == 3 {
        Some((f[0], base_name(f[1]), f[2]))
    } else {
        None
    }
}

/// The entries that the lines describe, in order; other lines are skipped.
pub open spec fn process_entries(lines: Seq<Seq<char>>) -> Seq<(Seq<char>, Seq<char>, Seq<char>)>
    decreases lines.len(),
{
    if lines.len() == 0 {
        Seq::empty()
    } else {
        let earlier = process_entries(lines.drop_last());
        match process_fields(lines.last()) {
            Some(t) => earlier.push(t),
            None => earlier,
        }
    }
}

/// The entries of the whole query output.
pub open spec fn process_listing(stdout: Seq<char>) -> Seq<(Seq<char>, Seq<char>, Seq<char>)> {
    process_entries(lines_of(stdout))
}

fn last_piece(path: &Vec<char>) -> (r: Vec<char>)
    ensures
        r@ == base_name(path@),
{
    let slash = vec!['/'];
    assert(slash@ =~= seq!['/']);
    let pieces = split_chars(path, &slash);
    proof {
        lemma_split_nonempty(path@, seq!['/']);
    }
    let n: usize = pieces.len();
    assert(views(pieces@)[n - 1] == pieces@[n - 1]@);
    pieces[n - 1].clone()
}

fn entry_of_line(line: &Vec<char>) -> (r: Option<ProcessEntry>)
    ensures
        match r {
            Some(e) => process_fields(line@) == Some(entry_view(e)),
            None => process_fields(line@).is_none(),
        },
{
    let sep = vec![',', ' '];
    assert(sep@ =~= csv_separator());
    let f = split_chars(line, &sep);
    if f.len() != 3 {
        return None;
    }
    assert(views(f@)[0] == f@[0]@);
    assert(views(f@)[1] == f@[1]@);
    assert(views(f@)[2] == f@[2]@);
    let pid = string_of(&f[0]);
    let base = last_piece(&f[1]);
    let name = string_of(&base);
    let memory = string_of(&f[2]);
    Some(ProcessEntry { pid, name, memory })
}

/// The entry that one line of the compute-apps query describes, if any.
pub fn parse_process_line(line: &str) -> (r: Option<ProcessEntry>)
    ensures
        match r {
            Some(e) => process_fields(line@) == Some(entry_view(e)),
            None => process_fields(line@).is_none(),
        },
{
    let v = chars_of(line);
    entry_of_line(&v)
}

/// The GPU processes that the compute-apps query output lists, in order.
pub fn parse_process_listing(stdout: &str) -> (r: Vec<ProcessEntry>)
    ensures
        entry_views(r@) == process_listing(stdout@),
{
    let text = chars_of(stdout);
    let lines = lines_chars(&text);
    let ghost ls = views(lines@);
    let mut r: Vec<ProcessEntry> = Vec::new();
    assert(ls.take(0) =~= Seq::<Seq<char>>::empty());
    assert(entry_views(r@) =~= process_entries(ls.take(0)));
    for i in 0..lines.len()
        invariant
            ls == views(lines@),
            entry_views(r@) == process_entries(ls.take(i as int)),
    {
        let ghost prefix = ls.take(i + 1);
        assert(prefix.drop_last() =~= ls.take(i as int));
        assert(prefix.last() == lines@[i as int]@);
        let ghost before = r@;
        match entry_of_line(&lines[i]) {
            Some(e) => {
                r.push(e);
                assert(entry_views(r@) =~= entry_views(before).push(entry_view(e)));
            },
            None => {},
        }
    }
    assert(ls.take(lines.len() as int) =~= ls);
    r
}

/// The command line read from `/proc/<pid>/cmdline` made readable: the NUL
/// separators turned into spaces, and the result trimmed.
pub open spec fn readable_cmdline(raw: Seq<char>) -> Seq<char> {
    trim(raw.map_values(|c: char| if c == '\0' { ' ' } else { c }))
}

/// The command shown for a GPU process: its readable command line where
/// that was read and is not empty, else the executable's name.
pub open spec fn full_command_spec(name: Seq<char>, cmdline: Option<Seq<char>>) -> Seq<char> {
    match cmdline {
        Some(raw) => if readable_cmdline(raw).len() > 0 {
            readable_cmdline(raw)
        } else {
            name
        },
        None => name,
    }
}

/// The command line text with NUL separators turned into spaces and
/// trimmed.
pub fn clean_cmdline(raw: &str) -> (r: String)
    ensures
        r@ == readable_cmdline(raw@),
{
    let v = chars_of(raw);
    let mut w: Vec<char> = Vec::new();
    for i in 0..v.len()
        invariant
            w@ == v@.take(i as int).map_values(|c: char| if c == '\0' { ' ' } else { c }),
    {
        let c = v[i];
        w.push(if c == '\0' { ' ' } else { c });
        assert(w@ =~= v@.take(i + 1).map_values(|c: char| if c == '\0' { ' ' } else { c }));
    }
    assert(v@.take(v.len() as int) =~= v@);
    let t = trim_chars(&w);
    string_of(&t)
}

/// The command shown for a GPU process, from its name and the text of its
/// `/proc/<pid>/cmdline` file where that could be read.
pub fn full_command(name: &str, cmdline: Option<&str>) -> (r: String)
    ensures
        r@ == full_command_spec(
            name@,
            match cmdline {
                Some(c) => Some(c@),
                None => None,
            },
        ),
{
    match cmdline {
        Some(raw) => {
            let c = clean_cmdline(raw);
            let cv = chars_of(c.as_str());
            if cv.len() > 0 {
                c
            } else {
                string_of(&chars_of(name))
            }
        },
        None => string_of(&chars_of(name)),
    }
}

/// The path of the file that holds a process's command line.
pub open spec fn cmdline_path_spec(pid: Seq<char>) -> Seq<char> {
    seq!['/', 'p', 'r', 'o', 'c', '/'] + pid + seq!['/', 'c', 'm', 'd', 'l', 'i', 'n', 'e']
}

/// `/proc/<pid>/cmdline`.
pub fn cmdline_path(pid: &str) -> (r: String)
    ensures
        r@ == cmdline_path_spec(pid@),
{
    let mut s = String::new();
    let head = vec!['/', 'p', 'r', 'o', 'c', '/'];
    let tail = vec!['/', 'c', 'm', 'd', 'l', 'i', 'n', 'e'];
    append_chars(&mut s, &head);
    append_chars(&mut s, &chars_of(pid));
    append_chars(&mut s, &tail);
    assert(s@ =~= cmdline_path_spec(pid@));
    s
}

/// Splitting at a single character leaves that character in no piece.
pub proof fn law_split_removes_separator(s: Seq<char>, c: char)
    ensures
        forall|i: int|
            0 <= i < split_on(s, seq![c]).len() ==> !(#[trigger] split_on(s, seq![c])[i]).contains(c),
    decreases s.len(),
{
    let sep = seq![c];
    if s.len() < 1 {
        assert(split_on(s, sep) == seq![s]);
    } else if s.take(1) == sep {
        let rest = s.skip(1);
        law_split_removes_separator(rest, c);
        let parts = split_on(s, sep);
        assert(parts == seq![Seq::<char>::empty()] + split_on(rest, sep));
        assert forall|i: int| 0 <= i < parts.len() implies !(#[trigger] parts[i]).contains(c) by {
            if i > 0 {
                assert(parts[i] == split_on(rest, sep)[i - 1]);
            }
        }
    } else {
        let rest = s.drop_first();
        law_split_removes_separator(rest, c);
        lemma_split_nonempty(rest, sep);
        let x = split_on(rest, sep);
        let parts = split_on(s, sep);
        assert(parts == prepend_char(s[0], x));
        assert(s[0] != c) by {
            if s[0] == c {
                assert(s.take(1) =~= sep);
            }
        }
        assert forall|i: int| 0 <= i < parts.len() implies !(#[trigger] parts[i]).contains(c) by {
            if i == 0 {
                let p = parts[0];
                assert(p == seq![s[0]] + x[0]);
                assert(!x[0].contains(c));
                if p.contains(c) {
                    let k = choose|k: int| 0 <= k < p.len() && p[k] == c;
                    if k > 0 {
                        assert(x[0][k - 1] == c);
                    }
                }
            } else {
                assert(parts[i] == x[i]);
            }
        }
    }
}

/// The name of every listed GPU process is a bare file name: it holds no `/`.
pub proof fn law_process_names_have_no_slash(line: Seq<char>)
    ensures
        process_fields(line) matches Some((_, name, _)) ==> !name.contains('/'),
{
    let f = split_on(line, csv_separator());
    if f.len() == 3 {
        law_split_removes_separator(f[1], '/');
        lemma_split_nonempty(f[1], seq!['/']);
        let pieces = split_on(f[1], seq!['/']);
        assert(!pieces[pieces.len() - 1].contains('/'));
    }
}


/// An entry whose fields are clean: the name is a bare file name, and no
/// field holds a line break; the pid and the memory hold no field separator.
pub open spec fn clean_entry(e: (Seq<char>, Seq<char>, Seq<char>)) -> bool {
    &&& !e.1.contains('/')
    &&& !e.0.contains('\n')
    &&& !e.1.contains('\n')
    &&& !e.2.contains('\n')
    &&& !has_infix(e.0, csv_separator())
    &&& !has_infix(e.2, csv_separator())
}

/// No line of a text holds a line break.
pub proof fn lemma_lines_have_no_newline(s: Seq<char>)
    ensures
        forall|i: int| 0 <= i < lines_of(s).len() ==> !(#[trigger] lines_of(s)[i]).contains('\n'),
{
    let p = split_on(s, seq!['\n']);
    law_split_removes_separator(s, '\n');
    lemma_split_nonempty(s, seq!['\n']);
    let ls = lines_of(s);
    assert forall|i: int| 0 <= i < ls.len() implies !(#[trigger] ls[i]).contains('\n') by {
        if i < p.len() - 1 {
            assert(ls[i] == strip_cr(p[i]));
            assert(!p[i].contains('\n'));
            if strip_cr(p[i]).contains('\n') {
                let k = choose|k: int| 0 <= k < strip_cr(p[i]).len() && strip_cr(p[i])[k] == '\n';
                assert(p[i][k] == '\n');
            }
        } else {
            assert(ls[i] == p[p.len() - 1]);
        }
    }
}

proof fn lemma_line_entry_clean(line: Seq<char>)
    requires
        !line.contains('\n'),
    ensures
        process_fields(line) matches Some(e) ==> clean_entry(e),
{
    let f = split_on(line, csv_separator());
    if f.len() == 3 {
        law_process_names_have_no_slash(line);
        law_split_pieces_avoid_separator(line, csv_separator());
        lemma_split_pieces_keep_chars(line, csv_separator(), '\n');
        assert(!f[0].contains('\n'));
        assert(!f[1].contains('\n'));
        assert(!f[2].contains('\n'));
        assert(!has_infix(f[0], csv_separator()));
        assert(!has_infix(f[2], csv_separator()));
        lemma_split_pieces_keep_chars(f[1], seq!['/'], '\n');
        lemma_split_nonempty(f[1], seq!['/']);
        let pieces = split_on(f[1], seq!['/']);
        assert(!pieces[pieces.len() - 1].contains('\n'));
    }
}

proof fn lemma_entries_clean(lines: Seq<Seq<char>>)
    requires
        forall|i: int| 0 <= i < lines.len() ==> !(#[trigger] lines[i]).contains('\n'),
    ensures
        process_entries(lines).len() <= lines.len(),
        forall|i: int|
            0 <= i < process_entries(lines).len() ==> clean_entry(#[trigger] process_entries(lines)[i]),
    decreases lines.len(),
{
    if lines.len() > 0 {
        let earlier = lines.drop_last();
        assert forall|i: int| 0 <= i < earlier.len() implies !(#[trigger] earlier[i]).contains('\n') by {
            assert(earlier[i] == lines[i]);
        }
        lemma_entries_clean(earlier);
        assert(!lines[lines.len() - 1].contains('\n'));
        lemma_line_entry_clean(lines.last());
        let es = process_entries(lines);
        let prev = process_entries(earlier);
        assert forall|i: int| 0 <= i < es.len() implies clean_entry(#[trigger] es[i]) by {
            if i < prev.len() {
                assert(es[i] == prev[i]);
            }
        }
    }
}

/// The GPU process list is well formed: at most one entry per line of the
/// query output, every name a bare file name, and no field holding a line
/// break; the pid and the memory hold no `", "` separator.
pub proof fn law_process_listing_clean(stdout: Seq<char>)
    ensures
        process_listing(stdout).len() <= lines_of(stdout).len(),
        forall|i: int|
            0 <= i < process_listing(stdout).len() ==> clean_entry(
                #[trigger] process_listing(stdout)[i],
            ),
{
    lemma_lines_have_no_newline(stdout);
    lemma_entries_clean(lines_of(stdout));
}

/// The command shown for a process is empty only where its name is empty.
pub proof fn law_full_command_empty_only_for_empty_name(
    name: Seq<char>,
    cmdline: Option<Seq<char>>,
)
    ensures
        full_command_spec(name, cmdline).len() == 0 ==> name.len() == 0,
{
}


/// A process line that gives an entry is exactly the pid, `", "`, the
/// path of the process, `", "`, and the memory; the entry's name is the
/// whole part of the path after its last `/` (the path up to there is
/// empty or ends in `/`, and the name holds no `/`), and no field holds
/// `", "`.
pub proof fn law_process_line_shape(line: Seq<char>)
    ensures
        process_fields(line) matches Some((pid, name, memory)) ==> exists|dir: Seq<char>|
            {
                &&& line == pid + seq![',', ' '] + #[trigger] (dir + name) + seq![',', ' '] + memory
                &&& (dir.len() == 0 || dir.last() == '/')
                &&& !name.contains('/')
                &&& !has_infix(pid, seq![',', ' '])
                &&& !has_infix(dir + name, seq![',', ' '])
                &&& !has_infix(memory, seq![',', ' '])
            },
{
    let sep = seq![',', ' '];
    assert(csv_separator() == sep);
    let f = split_on(line, sep);
    if f.len() == 3 {
        law_split_join(line, sep);
        law_split_pieces_avoid_separator(line, sep);
        let t = f.drop_first();
        assert(t.drop_first().len() == 1);
        assert(t[0] == f[1]);
        assert(t.drop_first()[0] == f[2]);
        assert(join_with(t.drop_first(), sep) == f[2]);
        assert(join_with(t, sep) == f[1] + sep + f[2]);
        assert(join_with(f, sep) == f[0] + sep + (f[1] + sep + f[2]));
        assert(line =~= f[0] + sep + f[1] + sep + f[2]);
        let slash = seq!['/'];
        let pieces = split_on(f[1], slash);
        lemma_split_nonempty(f[1], slash);
        law_split_join(f[1], slash);
        law_process_names_have_no_slash(line);
        let name = pieces.last();
        let dir = if pieces.len() == 1 {
            Seq::<char>::empty()
        } else {
            join_with(pieces.drop_last(), slash) + slash
        };
        if pieces.len() == 1 {
            assert(join_with(pieces, slash) == pieces[0]);
            assert(dir + name =~= f[1]);
        } else {
            lemma_join_last(pieces, slash);
            assert(dir + name =~= f[1]);
            assert(dir.last() == '/');
        }
        assert(process_fields(line) == Some((f[0], name, f[2])));
        assert(line == f[0] + sep + (dir + name) + sep + f[2]);
    }
}

} // verus!
