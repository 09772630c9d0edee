use vstd::prelude::*;

verus! {

/// A Unicode `White_Space` character, the set that `char::is_whitespace`,
/// `str::trim` and `str::split_whitespace` use.
pub open spec fn is_space(c: char) -> bool {
    let n: u32 = c as u32;
    ||| 9 <= n <= 13
    ||| n == 32
    ||| n == 0x85
    ||| n == 0xA0
    ||| n == 0x1680
    ||| 0x2000 <= n <= 0x200A
    ||| n == 0x2028
    ||| n == 0x2029
    ||| n == 0x202F
    ||| n == 0x205F
    ||| n == 0x3000
}

/// Executable test for `is_space`.
pub fn char_is_space(c: char) -> (b: bool)
    ensures
        b == is_space(c),
{
    let n: u32 = c as u32;
    (9 <= n && n <= 13) || n == 32 || n == 0x85 || n == 0xA0 || n == 0x1680 || (0x2000 <= n
        && n <= 0x200A) || n == 0x2028 || n == 0x2029 || n == 0x202F || n == 0x205F || n
        == 0x3000
}

/// The characters of a string slice, in order.
pub fn chars_of(s: &str) -> (v: Vec<char>)
    ensures
        v@ == s@,
{
    broadcast use vstd::string::group_string_axioms;

    let mut v: Vec<char> = Vec::new();
    for c in it: s.chars()
        invariant
            it.seq() == s@,
            v@ == it.seq().take(it.index() as int),
    {
        v.push(c);
        assert(it.seq().take(it.index() + 1) =~= it.seq().take(it.index() as int).push(c));
    }
    assert(v@ =~= s@);
    v
}


/// `String::push` appends one character to the end of the string (std
/// documentation: "Appends the given char to the end of this String").
pub assume_specification[ String::push ](s: &mut String, ch: char)
    ensures
        final(s)@ == old(s)@.push(ch),
;

/// A `String` holding the given characters.
pub fn string_of(v: &Vec<char>) -> (s: String)
    ensures
        s@ == v@,
{
    let mut s = String::new();
    for i in 0..v.len()
        invariant
            s@ == v@.take(i as int),
    {
        s.push(v[i]);
        assert(v@.take(i + 1) =~= v@.take(i as int).push(v@[i as int]));
    }
    assert(v@.take(v.len() as int) =~= v@);
    s
}

/// `s` with its leading white space removed.
pub open spec fn trim_start(s: Seq<char>) -> Seq<char>
    decreases s.len(),
{
    if s.len() > 0 && is_space(s[0]) {
        trim_start(s.drop_first())
    } else {
        s
    }
}

/// `s` with its trailing white space removed.
pub open spec fn trim_end(s: Seq<char>) -> Seq<char>
    decreases s.len(),
{
    if s.len() > 0 && is_space(s.last()) {
        trim_end(s.drop_last())
    } else {
        s
    }
}

/// `s` with leading and trailing white space removed, as `str::trim` does.
pub open spec fn trim(s: Seq<char>) -> Seq<char> {
    trim_end(trim_start(s))
}

/// Index of the first character of `s` that is not white space
/// (`s.len()` when there is none).
fn leading_space_end(s: &Vec<char>) -> (i: usize)
    ensures
        i <= s.len(),
        trim_start(s@) == s@.skip(i as int),
        forall|k: int| 0 <= k < i ==> is_space(#[trigger] s@[k]),
        i < s.len() ==> !is_space(s@[i as int]),
{
    let mut i: usize = 0;
    assert(s@.skip(0) =~= s@);
    while i < s.len() && char_is_space(s[i])
        invariant
            i <= s.len(),
            trim_start(s@) == trim_start(s@.skip(i as int)),
            forall|k: int| 0 <= k < i ==> is_space(#[trigger] s@[k]),
        decreases s.len() - i,
    {
        assert(s@.skip(i as int).drop_first() =~= s@.skip(i + 1));
        i = i + 1;
    }
    i
}

/// The characters of `s` with leading and trailing white space removed.
pub fn trim_chars(s: &Vec<char>) -> (t: Vec<char>)
    ensures
        t@ == trim(s@),
{
    let start: usize = leading_space_end(s);
    let mut end: usize = s.len();
    let ghost rest = s@.skip(start as int);
    assert(rest =~= s@.subrange(start as int, end as int));
    while end > start && char_is_space(s[end - 1])
        invariant
            start <= end <= s.len(),
            rest == s@.skip(start as int),
            trim_end(rest) == trim_end(s@.subrange(start as int, end as int)),
        decreases end,
    {
        assert(s@.subrange(start as int, end as int).drop_last() =~= s@.subrange(
            start as int,
            end - 1,
        ));
        end = end - 1;
    }
    let mut t: Vec<char> = Vec::new();
    let mut k: usize = start;
    while k < end
        invariant
            start <= k <= end <= s.len(),
            t@ == s@.subrange(start as int, k as int),
        decreases end - k,
    {
        t.push(s[k]);
        assert(s@.subrange(start as int, k + 1) =~= s@.subrange(start as int, k as int).push(
            s@[k as int],
        ));
        k = k + 1;
    }
    t
}

/// `str::trim`: the string with leading and trailing white space removed.
pub fn trim_str(s: &str) -> (t: String)
    ensures
        t@ == trim(s@),
{
    let v = chars_of(s);
    let t = trim_chars(&v);
    string_of(&t)
}


/// `parts` with the character `c` put in front of its first piece.
pub open spec fn prepend_char(c: char, parts: Seq<Seq<char>>) -> Seq<Seq<char>> {
    parts.update(0, seq![c] + parts[0])
}

/// `parts` with `prefix` put in front of its first piece.
pub open spec fn prepend_piece(prefix: Seq<char>, parts: Seq<Seq<char>>) -> Seq<Seq<char>> {
    parts.update(0, prefix + parts[0])
}

/// The pieces of `s` between the non-overlapping occurrences of `sep`,
/// found from left to right, as `str::split` with a string pattern gives
/// them. `sep` is meant to be non-empty.
pub open spec fn split_on(s: Seq<char>, sep: Seq<char>) -> Seq<Seq<char>>
    decreases s.len(),
{
    if sep.len() == 0 || s.len() < sep.len() {
        seq![s]
    } else if s.take(sep.len() as int) == sep {
        seq![Seq::<char>::empty()] + split_on(s.skip(sep.len() as int), sep)
    } else {
        prepend_char(s[0], split_on(s.drop_first(), sep))
    }
}

/// The views of a sequence of character vectors.
pub open spec fn views(v: Seq<Vec<char>>) -> Seq<Seq<char>> {
    Seq::new(v.len(), |i: int| v[i]@)
}

/// The views of a sequence of strings.
pub open spec fn string_views(v: Seq<String>) -> Seq<Seq<char>> {
    Seq::new(v.len(), |i: int| v[i]@)
}

/// Splitting always gives at least one piece.
pub proof fn lemma_split_nonempty(s: Seq<char>, sep: Seq<char>)
    ensures
        split_on(s, sep).len() >= 1,
    decreases s.len(),
{
    if sep.len() == 0 || s.len() < sep.len() {
    } else if s.take(sep.len() as int) == sep {
        lemma_split_nonempty(s.skip(sep.len() as int), sep);
    } else {
        lemma_split_nonempty(s.drop_first(), sep);
    }
}

/// Where `s` does not start with `sep`, its first character belongs to the
/// first piece.
proof fn lemma_split_step(t: Seq<char>, sep: Seq<char>)
    requires
        t.len() > 0,
        sep.len() > 0,
        !(t.len() >= sep.len() && t.take(sep.len() as int) == sep),
    ensures
        split_on(t, sep) == prepend_char(t[0], split_on(t.drop_first(), sep)),
{
    if t.len() < sep.len() {
        assert(seq![t[0]] + t.drop_first() =~= t);
        assert(prepend_char(t[0], split_on(t.drop_first(), sep)) =~= seq![t]);
    }
}

/// Whether `sep` occurs in `s` at position `i`.
fn occurs_at(s: &Vec<char>, i: usize, sep: &Vec<char>) -> (b: bool)
    requires
        i <= s.len(),
    ensures
        b == (s.len() - i >= sep.len() && s@.skip(i as int).take(sep.len() as int) == sep@),
{
    if s.len() - i < sep.len() {
        return false;
    }
    let mut k: usize = 0;
    while k < sep.len()
        invariant
            k <= sep.len(),
            s.len() - i >= sep.len(),
            forall|j: int| 0 <= j < k ==> s@[i + j] == sep@[j],
        decreases sep.len() - k,
    {
        if s[i + k] != sep[k] {
            assert(s@.skip(i as int).take(sep.len() as int)[k as int] != sep@[k as int]);
            return false;
        }
        k = k + 1;
    }
    assert(s@.skip(i as int).take(sep.len() as int) =~= sep@);
    true
}

/// The pieces of `s` between the occurrences of `sep`.
pub fn split_chars(s: &Vec<char>, sep: &Vec<char>) -> (parts: Vec<Vec<char>>)
    requires
        sep.len() > 0,
    ensures
        views(parts@) == split_on(s@, sep@),
{
    let mut done: Vec<Vec<char>> = Vec::new();
    let mut cur: Vec<char> = Vec::new();
    let mut i: usize = 0;
    assert(s@.skip(0) =~= s@);
    proof {
        lemma_split_nonempty(s@, sep@);
        assert(prepend_piece(cur@, split_on(s@, sep@)) =~= split_on(s@, sep@));
        assert(views(done@) + split_on(s@, sep@) =~= split_on(s@, sep@));
    }
    while i < s.len()
        invariant
            i <= s.len(),
            sep.len() > 0,
            split_on(s@, sep@) == views(done@) + prepend_piece(
                cur@,
                split_on(s@.skip(i as int), sep@),
            ),
        decreases s.len() - i,
    {
        let ghost t = s@.skip(i as int);
        if occurs_at(s, i, sep) {
            proof {
                assert(t.skip(sep.len() as int) =~= s@.skip(i + sep.len()));
                lemma_split_nonempty(t.skip(sep.len() as int), sep@);
                assert(views(done@.push(cur)) + prepend_piece(Seq::<char>::empty(), split_on(t.skip(sep.len() as int), sep@))
                    =~= views(done@) + prepend_piece(cur@, split_on(t, sep@)));
            }
            done.push(cur);
            cur = Vec::new();
            i = i + sep.len();
        } else {
            let c = s[i];
            proof {
                lemma_split_step(t, sep@);
                assert(t.drop_first() =~= s@.skip(i + 1));
                lemma_split_nonempty(t.drop_first(), sep@);
                let x = split_on(t.drop_first(), sep@);
                assert(t[0] == c);
                assert(cur@ + (seq![c] + x[0]) =~= cur@.push(c) + x[0]);
                assert(prepend_piece(cur@.push(c), split_on(t.drop_first(), sep@))
                    =~= prepend_piece(cur@, split_on(t, sep@)));
            }
            cur.push(c);
            i = i + 1;
        }
    }
    proof {
        let e = s@.skip(i as int);
        assert(e.len() == 0);
        assert(split_on(e, sep@) == seq![e]);
        assert(views(done@.push(cur)) =~= views(done@) + prepend_piece(cur@, split_on(e, sep@)));
    }
    done.push(cur);
    done
}


/// The pieces joined back together with `sep` between neighbours.
pub open spec fn join_with(parts: Seq<Seq<char>>, sep: Seq<char>) -> Seq<char>
    decreases parts.len(),
{
    if parts.len() == 0 {
        Seq::empty()
    } else if parts.len() == 1 {
        parts[0]
    } else {
        parts[0] + sep + join_with(parts.drop_first(), sep)
    }
}

proof fn lemma_join_prepend(p: Seq<char>, parts: Seq<Seq<char>>, sep: Seq<char>)
    requires
        parts.len() >= 1,
    ensures
        join_with(prepend_piece(p, parts), sep) == p + join_with(parts, sep),
{
    let q = prepend_piece(p, parts);
    if parts.len() == 1 {
    } else {
        assert(q.drop_first() =~= parts.drop_first());
        assert(p + parts[0] + sep + join_with(parts.drop_first(), sep) =~= p + (parts[0] + sep
            + join_with(parts.drop_first(), sep)));
    }
}

/// Joining the pieces of a split with the separator gives back the text:
/// splitting loses nothing and invents nothing.
pub proof fn law_split_join(s: Seq<char>, sep: Seq<char>)
    requires
        sep.len() > 0,
    ensures
        join_with(split_on(s, sep), sep) == s,
    decreases s.len(),
{
    if s.len() < sep.len() {
    } else if s.take(sep.len() as int) == sep {
        let rest = s.skip(sep.len() as int);
        law_split_join(rest, sep);
        lemma_split_nonempty(rest, sep);
        let parts = seq![Seq::<char>::empty()] + split_on(rest, sep);
        assert(parts.drop_first() =~= split_on(rest, sep));
        assert(Seq::<char>::empty() + sep + rest =~= s);
    } else {
        law_split_join(s.drop_first(), sep);
        lemma_split_nonempty(s.drop_first(), sep);
        assert(prepend_char(s[0], split_on(s.drop_first(), sep)) == prepend_piece(
            seq![s[0]],
            split_on(s.drop_first(), sep),
        ));
        lemma_join_prepend(seq![s[0]], split_on(s.drop_first(), sep), sep);
        assert(seq![s[0]] + s.drop_first() =~= s);
    }
}

/// `s` without one trailing carriage return, if it has one.
pub open spec fn strip_cr(s: Seq<char>) -> Seq<char> {
    if s.len() > 0 && s.last() == '\r' {
        s.drop_last()
    } else {
        s
    }
}

/// The lines of `s` as `str::lines` gives them: split at `\n`, a `\r`
/// just before a `\n` removed, and no empty last line after a final `\n`.
pub open spec fn lines_of(s: Seq<char>) -> Seq<Seq<char>> {
    let p = split_on(s, seq!['\n']);
    let body = Seq::new((p.len() - 1) as nat, |i: int| strip_cr(p[i]));
    if p.len() == 0 || p.last().len() == 0 {
        body
    } else {
        body.push(p.last())
    }
}

/// The lines of `s`.
pub fn lines_chars(s: &Vec<char>) -> (lines: Vec<Vec<char>>)
    ensures
        views(lines@) == lines_of(s@),
{
    let mut nl: Vec<char> = Vec::new();
    nl.push('\n');
    assert(nl@ =~= seq!['\n']);
    let parts = split_chars(s, &nl);
    proof {
        lemma_split_nonempty(s@, nl@);
    }
    let n: usize = parts.len();
    let mut lines: Vec<Vec<char>> = Vec::new();
    let mut i: usize = 0;
    while i + 1 < n
        invariant
            n == parts.len(),
            n >= 1,
            i + 1 <= n,
            views(parts@) == split_on(s@, seq!['\n']),
            views(lines@) == Seq::new(i as nat, |k: int| strip_cr(parts@[k]@)),
        decreases n - i,
    {
        let piece = &parts[i];
        let mut line: Vec<char> = Vec::new();
        let mut len: usize = piece.len();
        if len > 0 && piece[len - 1] == '\r' {
            len = len - 1;
        }
        let mut k: usize = 0;
        while k < len
            invariant
                len <= piece.len(),
                k <= len,
                line@ == piece@.take(k as int),
            decreases len - k,
        {
            line.push(piece[k]);
            assert(piece@.take(k + 1) =~= piece@.take(k as int).push(piece@[k as int]));
            k = k + 1;
        }
        assert(line@ =~= strip_cr(piece@));
        let ghost before = lines@;
        lines.push(line);
        assert(lines@ == before.push(line));
        assert(views(before).len() == before.len());
        assert(before.len() == i);
        assert forall|k: int| 0 <= k < i implies #[trigger] lines@[k]@ == strip_cr(parts@[k]@) by {
            assert(lines@[k] == before[k]);
            assert(views(before)[k] == before[k]@);
        }
        assert(lines@[i as int]@ == strip_cr(parts@[i as int]@));
        assert(views(lines@) =~= Seq::new((i + 1) as nat, |k: int| strip_cr(parts@[k]@)));
        i = i + 1;
    }
    let ghost p = split_on(s@, seq!['\n']);
    assert(views(lines@) =~= Seq::new((p.len() - 1) as nat, |k: int| strip_cr(p[k])));
    if parts[n - 1].len() > 0 {
        let last = parts[n - 1].clone();
        lines.push(last);
        assert(views(lines@) =~= lines_of(s@));
    }
    lines
}

/// The characters at the front of `t` up to its first white space.
pub open spec fn word_prefix(t: Seq<char>) -> Seq<char>
    decreases t.len(),
{
    if t.len() == 0 || is_space(t[0]) {
        Seq::empty()
    } else {
        seq![t[0]] + word_prefix(t.drop_first())
    }
}

/// The first white-space separated word of `s`, as
/// `s.split_whitespace().next()` gives it.
pub open spec fn first_word(s: Seq<char>) -> Option<Seq<char>> {
    let t = trim_start(s);
    if t.len() == 0 {
        None
    } else {
        Some(word_prefix(t))
    }
}

/// The first white-space separated word of `s`, if any.
pub fn first_word_chars(s: &Vec<char>) -> (w: Option<Vec<char>>)
    ensures
        match w {
            Some(v) => first_word(s@) == Some(v@),
            None => first_word(s@).is_none(),
        },
{
    let start: usize = leading_space_end(s);
    if start == s.len() {
        return None;
    }
    let mut end: usize = start;
    while end < s.len() && !char_is_space(s[end])
        invariant
            start <= end <= s.len(),
            word_prefix(s@.skip(start as int)) == s@.subrange(start as int, end as int)
                + word_prefix(s@.skip(end as int)),
        decreases s.len() - end,
    {
        assert(s@.skip(end as int).drop_first() =~= s@.skip(end + 1));
        assert(s@.subrange(start as int, end as int) + (seq![s@[end as int]] + word_prefix(
            s@.skip(end + 1),
        )) =~= s@.subrange(start as int, end + 1) + word_prefix(s@.skip(end + 1)));
        end = end + 1;
    }
    assert(word_prefix(s@.skip(end as int)) =~= Seq::<char>::empty());
    let mut w: Vec<char> = Vec::new();
    let mut k: usize = start;
    while k < end
        invariant
            start <= k <= end <= s.len(),
            w@ == s@.subrange(start as int, k as int),
        decreases end - k,
    {
        w.push(s[k]);
        assert(s@.subrange(start as int, k + 1) =~= s@.subrange(start as int, k as int).push(
            s@[k as int],
        ));
        k = k + 1;
    }
    assert(w@ =~= word_prefix(trim_start(s@)));
    Some(w)
}


/// Appends the given characters to `s`.
pub fn append_chars(s: &mut String, v: &Vec<char>)
    ensures
        final(s)@ == old(s)@ + v@,
{
    let ghost start = s@;
    for i in 0..v.len()
        invariant
            s@ == start + v@.take(i as int),
    {
        s.push(v[i]);
        assert(start + v@.take(i + 1) =~= (start + v@.take(i as int)).push(v@[i as int]));
    }
    assert(v@.take(v.len() as int) =~= v@);
}

/// Whether two character vectors hold the same text.
pub fn chars_eq(a: &Vec<char>, b: &Vec<char>) -> (r: bool)
    ensures
        r == (a@ == b@),
{
    if a.len() != b.len() {
        return false;
    }
    let mut i: usize = 0;
    while i < a.len()
        invariant
            i <= a.len() == b.len(),
            forall|k: int| 0 <= k < i ==> a@[k] == b@[k],
        decreases a.len() - i,
    {
        if a[i] != b[i] {
            return false;
        }
        i = i + 1;
    }
    assert(a@ =~= b@);
    true
}

/// The split of a string at every occurrence of a non-empty separator, as
/// `s.split(sep)` gives it.
pub fn split_str(s: &str, sep: &str) -> (parts: Vec<String>)
    requires
        sep@.len() > 0,
    ensures
        string_views(parts@) == split_on(s@, sep@),
{
    let sv = chars_of(s);
    let pv = chars_of(sep);
    let pieces = split_chars(&sv, &pv);
    strings_of(&pieces)
}

/// The lines of a string, as `s.lines()` gives them.
pub fn lines_str(s: &str) -> (lines: Vec<String>)
    ensures
        string_views(lines@) == lines_of(s@),
{
    let sv = chars_of(s);
    let pieces = lines_chars(&sv);
    strings_of(&pieces)
}

/// A `String` for each character vector.
pub fn strings_of(v: &Vec<Vec<char>>) -> (r: Vec<String>)
    ensures
        string_views(r@) == views(v@),
{
    let mut r: Vec<String> = Vec::new();
    for i in 0..v.len()
        invariant
            string_views(r@) == views(v@).take(i as int),
    {
        let s = string_of(&v[i]);
        let ghost before = r@;
        assert(string_views(before).len() == before.len());
        assert(before.len() == i);
        r.push(s);
        assert(r@ == before.push(s));
        assert(string_views(r@) =~= views(v@).take(i + 1)) by {
            assert forall|k: int| 0 <= k < i implies #[trigger] r@[k]@ == views(v@)[k] by {
                assert(r@[k] == before[k]);
                assert(string_views(before)[k] == views(v@).take(i as int)[k]);
            }
        }
    }
    assert(views(v@).take(v.len() as int) =~= views(v@));
    r
}


proof fn lemma_trim_start_shape(s: Seq<char>)
    ensures
        trim_start(s).len() > 0 ==> !is_space(trim_start(s)[0]),
        trim_start(s).len() <= s.len(),
    decreases s.len(),
{
    if s.len() > 0 && is_space(s[0]) {
        lemma_trim_start_shape(s.drop_first());
    }
}

proof fn lemma_trim_end_shape(s: Seq<char>)
    ensures
        trim_end(s).len() > 0 ==> !is_space(trim_end(s).last()),
        trim_end(s) == s.take(trim_end(s).len() as int),
        trim_end(s).len() <= s.len(),
    decreases s.len(),
{
    if s.len() > 0 && is_space(s.last()) {
        lemma_trim_end_shape(s.drop_last());
        let t = trim_end(s.drop_last());
        assert(s.drop_last().take(t.len() as int) =~= s.take(t.len() as int));
    } else {
        assert(s.take(s.len() as int) =~= s);
    }
}

/// Trimmed text neither starts nor ends with white space, and trimming it
/// again changes nothing.
pub proof fn law_trim_clean(s: Seq<char>)
    ensures
        trim(s).len() > 0 ==> !is_space(trim(s)[0]) && !is_space(trim(s).last()),
        trim(trim(s)) == trim(s),
{
    let a = trim_start(s);
    lemma_trim_start_shape(s);
    lemma_trim_end_shape(a);
    let t = trim(s);
    if t.len() > 0 {
        assert(t[0] == a[0]);
        assert(trim_start(t) == t);
        assert(trim_end(t) == t);
    } else {
        assert(trim_start(t) == t);
        assert(trim_end(t) == t);
    }
}


/// `sep` occurs somewhere in `p`.
pub open spec fn has_infix(p: Seq<char>, sep: Seq<char>) -> bool {
    exists|k: int| 0 <= k && k + sep.len() <= p.len() && #[trigger] p.subrange(k, k + sep.len()) == sep
}

/// The first piece of a split is the text up to the first separator: a
/// prefix of the text.
pub proof fn lemma_split_first_prefix(s: Seq<char>, sep: Seq<char>)
    requires
        sep.len() > 0,
    ensures
        split_on(s, sep)[0].len() <= s.len(),
        s.take(split_on(s, sep)[0].len() as int) == split_on(s, sep)[0],
    decreases s.len(),
{
    if s.len() < sep.len() {
        assert(s.take(s.len() as int) =~= s);
    } else if s.take(sep.len() as int) == sep {
        lemma_split_nonempty(s.skip(sep.len() as int), sep);
        assert(s.take(0) =~= Seq::<char>::empty());
    } else {
        let rest = s.drop_first();
        lemma_split_first_prefix(rest, sep);
        lemma_split_nonempty(rest, sep);
        let x0 = split_on(rest, sep)[0];
        let p0 = split_on(s, sep)[0];
        assert(p0 == seq![s[0]] + x0);
        assert(s.take(p0.len() as int) =~= seq![s[0]] + rest.take(x0.len() as int));
    }
}

/// No piece of a split holds the separator: each piece ends where the
/// separator first occurs.
pub proof fn law_split_pieces_avoid_separator(s: Seq<char>, sep: Seq<char>)
    requires
        sep.len() > 0,
    ensures
        forall|i: int|
            0 <= i < split_on(s, sep).len() ==> !has_infix(#[trigger] split_on(s, sep)[i], sep),
    decreases s.len(),
{
    let parts = split_on(s, sep);
    if s.len() < sep.len() {
        assert forall|i: int| 0 <= i < parts.len() implies !has_infix(#[trigger] parts[i], sep) by {
            assert(parts[i] == s);
        }
    } else if s.take(sep.len() as int) == sep {
        let rest = s.skip(sep.len() as int);
        law_split_pieces_avoid_separator(rest, sep);
        assert forall|i: int| 0 <= i < parts.len() implies !has_infix(#[trigger] parts[i], sep) by {
            if i > 0 {
                assert(parts[i] == split_on(rest, sep)[i - 1]);
            } else {
                assert(parts[0].len() == 0);
            }
        }
    } else {
        let rest = s.drop_first();
        law_split_pieces_avoid_separator(rest, sep);
        lemma_split_nonempty(rest, sep);
        lemma_split_first_prefix(s, sep);
        let x = split_on(rest, sep);
        assert forall|i: int| 0 <= i < parts.len() implies !has_infix(#[trigger] parts[i], sep) by {
            if i == 0 {
                let p = parts[0];
                assert(p == seq![s[0]] + x[0]);
                if has_infix(p, sep) {
                    let k = choose|k: int|
                        0 <= k && k + sep.len() <= p.len() && #[trigger] p.subrange(k, k + sep.len())
                            == sep;
                    if k == 0 {
                        assert(s.take(sep.len() as int) =~= p.subrange(0, sep.len() as int));
                    } else {
                        assert(x[0].subrange(k - 1, k - 1 + sep.len()) =~= p.subrange(
                            k,
                            k + sep.len(),
                        ));
                        assert(!has_infix(x[0], sep));
                    }
                }
            } else {
                assert(parts[i] == x[i]);
            }
        }
    }
}

/// Every character of a piece of a split is a character of the text.
pub proof fn lemma_split_pieces_keep_chars(s: Seq<char>, sep: Seq<char>, c: char)
    requires
        !s.contains(c),
    ensures
        forall|i: int| 0 <= i < split_on(s, sep).len() ==> !(#[trigger] split_on(s, sep)[i]).contains(c),
    decreases s.len(),
{
    let parts = split_on(s, sep);
    if sep.len() == 0 || s.len() < sep.len() {
        assert forall|i: int| 0 <= i < parts.len() implies !(#[trigger] parts[i]).contains(c) by {
            assert(parts[i] == s);
        }
    } else if s.take(sep.len() as int) == sep {
        let rest = s.skip(sep.len() as int);
        assert(!rest.contains(c)) by {
            if rest.contains(c) {
                let k = choose|k: int| 0 <= k < rest.len() && rest[k] == c;
                assert(s[k + sep.len()] == c);
            }
        }
        lemma_split_pieces_keep_chars(rest, sep, c);
        assert forall|i: int| 0 <= i < parts.len() implies !(#[trigger] parts[i]).contains(c) by {
            if i > 0 {
                assert(parts[i] == split_on(rest, sep)[i - 1]);
            } else {
                assert(parts[0].len() == 0);
            }
        }
    } else {
        let rest = s.drop_first();
        assert(!rest.contains(c)) by {
            if rest.contains(c) {
                let k = choose|k: int| 0 <= k < rest.len() && rest[k] == c;
                assert(s[k + 1] == c);
            }
        }
        lemma_split_pieces_keep_chars(rest, sep, c);
        lemma_split_nonempty(rest, sep);
        let x = split_on(rest, sep);
        assert(s[0] != c);
        assert forall|i: int| 0 <= i < parts.len() implies !(#[trigger] parts[i]).contains(c) by {
            if i == 0 {
                let p = parts[0];
                assert(p == seq![s[0]] + x[0]);
                assert(!x[0].contains(c));
                if p.contains(c) {
                    let k = choose|k: int| 0 <= k < p.len() && p[k] == c;
                    if k > 0 {
                        assert(x[0][k - 1] == c);
                    }
                }
            } else {
                assert(parts[i] == x[i]);
            }
        }
    }
}


/// Joining pieces is joining all but the last, the separator, then the
/// last.
pub proof fn lemma_join_last(parts: Seq<Seq<char>>, sep: Seq<char>)
    requires
        parts.len() >= 2,
    ensures
        join_with(parts, sep) == join_with(parts.drop_last(), sep) + sep + parts.last(),
    decreases parts.len(),
{
    if parts.len() == 2 {
        assert(parts.drop_last().len() == 1);
        assert(parts.drop_first().len() == 1);
        assert(parts.drop_first()[0] == parts.last());
        assert(join_with(parts.drop_first(), sep) == parts.last());
        assert(join_with(parts.drop_last(), sep) == parts[0]);
        assert(parts.drop_last()[0] == parts[0]);
    } else {
        let tail = parts.drop_first();
        lemma_join_last(tail, sep);
        assert(tail.drop_last() =~= parts.drop_last().drop_first());
        assert(tail.last() == parts.last());
        assert(parts.drop_last()[0] == parts[0]);
        assert(join_with(parts.drop_last(), sep) == parts[0] + sep + join_with(
            parts.drop_last().drop_first(),
            sep,
        ));
        assert(join_with(parts, sep) == parts[0] + sep + join_with(tail, sep));
        assert(parts[0] + sep + (join_with(tail.drop_last(), sep) + sep + tail.last()) =~= parts[0]
            + sep + join_with(tail.drop_last(), sep) + sep + tail.last());
    }
}

/// Text that starts with white space followed by the rest: `trim_start`
/// drops exactly the leading white space.
pub proof fn lemma_trim_start_drops_leading_space(s: Seq<char>)
    ensures
        exists|k: int|
            0 <= k <= s.len() && trim_start(s) == #[trigger] s.skip(k) && (forall|j: int|
                0 <= j < k ==> is_space(s[j])) && (k < s.len() ==> !is_space(s[k])),
    decreases s.len(),
{
    if s.len() > 0 && is_space(s[0]) {
        let t = s.drop_first();
        lemma_trim_start_drops_leading_space(t);
        let k = choose|k: int|
            0 <= k <= t.len() && trim_start(t) == #[trigger] t.skip(k) && (forall|j: int|
                0 <= j < k ==> is_space(t[j])) && (k < t.len() ==> !is_space(t[k]));
        assert(t.skip(k) =~= s.skip(k + 1));
        assert forall|j: int| 0 <= j < k + 1 implies is_space(s[j]) by {
            if j > 0 {
                assert(s[j] == t[j - 1]);
            }
        }
        assert(k + 1 < s.len() ==> s[k + 1] == t[k]);
    } else {
        assert(s.skip(0) =~= s);
    }
}

/// The word at the front of `t` is the longest prefix without white space.
pub proof fn lemma_word_prefix_shape(t: Seq<char>)
    ensures
        word_prefix(t).len() <= t.len(),
        t.take(word_prefix(t).len() as int) == word_prefix(t),
        forall|j: int| 0 <= j < word_prefix(t).len() ==> !is_space(#[trigger] word_prefix(t)[j]),
        word_prefix(t).len() < t.len() ==> is_space(t[word_prefix(t).len() as int]),
        t.len() > 0 && !is_space(t[0]) ==> word_prefix(t).len() > 0,
    decreases t.len(),
{
    if t.len() == 0 || is_space(t[0]) {
        assert(t.take(0) =~= Seq::<char>::empty());
    } else {
        let r = t.drop_first();
        lemma_word_prefix_shape(r);
        let w = word_prefix(t);
        let wr = word_prefix(r);
        assert(w == seq![t[0]] + wr);
        assert(t.take(w.len() as int) =~= seq![t[0]] + r.take(wr.len() as int));
        assert forall|j: int| 0 <= j < w.len() implies !is_space(#[trigger] w[j]) by {
            if j > 0 {
                assert(w[j] == wr[j - 1]);
            }
        }
        if w.len() < t.len() {
            assert(t[w.len() as int] == r[wr.len() as int]);
        }
    }
}

} // verus!
