//! Text helpers over character sequences: joining, splitting, replacing,
//! line handling and decimal numbers, each with its meaning as a spec function.

use vstd::prelude::*;

verus! {

/// The characters of each string, in order.
pub open spec fn views(v: Seq<String>) -> Seq<Seq<char>> {
    v.map_values(|s: String| s@)
}

/// The parts joined, with `sep` between each two neighbours.
pub open spec fn join(parts: Seq<Seq<char>>, sep: Seq<char>) -> Seq<char>
    decreases parts.len(),
{
    if parts.len() == 0 {
        Seq::empty()
    } else if parts.len() == 1 {
        parts[0]
    } else {
        join(parts.drop_last(), sep) + sep + parts.last()
    }
}

/// Appends one character to a string.
#[verifier::external_body]
pub(crate) fn push_char(s: &mut String, c: char)
    ensures
        final(s)@ == old(s)@.push(c),
{
    s.push(c);
}

/// The characters of a string, in order.
pub fn chars_of(s: &str) -> (res: Vec<char>)
    ensures
        res@ == s@,
{
    let mut res: Vec<char> = Vec::new();
    for c in it: s.chars()
        invariant
            it.seq() == s@,
            res@ == it.seq().take(it.index() as int),
    {
        res.push(c);
    }
    assert(s@.take(s@.len() as int) =~= s@);
    res
}

/// The string made of the given characters.
pub fn string_of(cs: &Vec<char>) -> (res: String)
    ensures
        res@ == cs@,
{
    let mut res = String::new();
    let n = cs.len();
    for k in 0..n
        invariant
            n == cs@.len(),
            res@ == cs@.take(k as int),
    {
        push_char(&mut res, cs[k]);
        assert(cs@.take(k + 1) =~= cs@.take(k as int).push(cs@[k as int]));
    }
    assert(cs@.take(n as int) =~= cs@);
    res
}

/// Whether `p` is a prefix of `s`.
pub fn starts_with(s: &str, p: &str) -> (res: bool)
    ensures
        res == p@.is_prefix_of(s@),
{
    let sv = chars_of(s);
    let pv = chars_of(p);
    if pv.len() > sv.len() {
        return false;
    }
    let n = pv.len();
    for k in 0..n
        invariant
            n == pv@.len(),
            n <= sv@.len(),
            sv@ == s@,
            pv@ == p@,
            forall|j: int| 0 <= j < k ==> pv@[j] == sv@[j],
    {
        if pv[k] != sv[k] {
            assert(p@[k as int] != s@.subrange(0, n as int)[k as int]);
            return false;
        }
    }
    assert(p@ =~= s@.subrange(0, p@.len() as int));
    true
}

/// Whether `pat` occurs in `s` at position `i`.
pub open spec fn occurs_at(s: Seq<char>, pat: Seq<char>, i: int) -> bool {
    0 <= i && pat.is_prefix_of(s.skip(i))
}

/// Whether `pat` occurs in `s` at position `i` (characters given as vectors).
fn matches_at(s: &Vec<char>, pat: &Vec<char>, i: usize) -> (res: bool)
    requires
        i <= s@.len(),
    ensures
        res == occurs_at(s@, pat@, i as int),
{
    if pat.len() > s.len() - i {
        return false;
    }
    let n = pat.len();
    for k in 0..n
        invariant
            n == pat@.len(),
            i + n <= s@.len(),
            s@.len() <= usize::MAX,
            forall|j: int| 0 <= j < k ==> pat@[j] == s@[i + j],
    {
        if pat[k] != s[i + k] {
            assert(s@.skip(i as int).subrange(0, n as int)[k as int] == s@[i + k]);
            return false;
        }
    }
    assert(pat@ =~= s@.skip(i as int).subrange(0, pat@.len() as int));
    true
}

/// Whether `pat` occurs somewhere in `s`.
pub fn contains_str(s: &str, pat: &str) -> (res: bool)
    ensures
        res == exists|i: int| 0 <= i <= s@.len() && #[trigger] occurs_at(s@, pat@, i),
{
    let sv = chars_of(s);
    let pv = chars_of(pat);
    let n = sv.len();
    for i in 0..n
        invariant
            n == sv@.len(),
            sv@ == s@,
            pv@ == pat@,
            forall|j: int| 0 <= j < i ==> !occurs_at(s@, pat@, j),
    {
        if matches_at(&sv, &pv, i) {
            return true;
        }
    }
    matches_at(&sv, &pv, n)
}

/// `s` with every occurrence of the non-empty `pat`, found from the left and not
/// overlapping, replaced by `rep`.
pub open spec fn replace_all(s: Seq<char>, pat: Seq<char>, rep: Seq<char>) -> Seq<char>
    decreases s.len(),
{
    if s.len() == 0 {
        Seq::empty()
    } else if pat.len() > 0 && pat.is_prefix_of(s) {
        rep + replace_all(s.skip(pat.len() as int), pat, rep)
    } else {
        seq![s[0]] + replace_all(s.drop_first(), pat, rep)
    }
}

/// Replaces every occurrence of `pat` in `s` by `rep`, as `str::replace` does for a
/// non-empty pattern.
pub fn replace_str(s: &str, pat: &str, rep: &str) -> (res: String)
    requires
        pat@.len() > 0,
    ensures
        res@ == replace_all(s@, pat@, rep@),
{
    let sv = chars_of(s);
    let pv = chars_of(pat);
    let mut out = String::new();
    let n = sv.len();
    let mut i: usize = 0;
    assert(s@.skip(0) =~= s@);
    assert(out@ + replace_all(s@, pat@, rep@) =~= replace_all(s@, pat@, rep@));
    while i < n
        invariant
            n == sv@.len(),
            sv@ == s@,
            pv@ == pat@,
            pat@.len() > 0,
            i <= n,
            out@ + replace_all(s@.skip(i as int), pat@, rep@) == replace_all(s@, pat@, rep@),
        decreases n - i,
    {
        let ghost rest = s@.skip(i as int);
        if matches_at(&sv, &pv, i) {
            proof {
                assert(rest.skip(pat@.len() as int) =~= s@.skip(i + pat@.len()));
            }
            out.append(rep);
            i = i + pv.len();
            assert(out@ + replace_all(s@.skip(i as int), pat@, rep@) =~= replace_all(s@, pat@, rep@));
        } else {
            proof {
                assert(rest.drop_first() =~= s@.skip(i + 1));
                assert(rest[0] == s@[i as int]);
            }
            push_char(&mut out, sv[i]);
            i = i + 1;
            assert(out@ + replace_all(s@.skip(i as int), pat@, rep@) =~= replace_all(s@, pat@, rep@));
        }
    }
    assert(s@.skip(n as int) =~= Seq::<char>::empty());
    assert(out@ + Seq::<char>::empty() =~= out@);
    out
}

/// Whether `c` can stand inside an identifier: an ASCII letter or digit, or `_`.
pub open spec fn ident_char(c: char) -> bool {
    ('a' <= c && c <= 'z') || ('A' <= c && c <= 'Z') || ('0' <= c && c <= '9') || c == '_'
}

/// Whether `c` can stand inside an identifier: see `ident_char`.
fn is_ident_char(c: char) -> (res: bool)
    ensures
        res == ident_char(c),
{
    ('a' <= c && c <= 'z') || ('A' <= c && c <= 'Z') || ('0' <= c && c <= '9') || c == '_'
}

/// `s` with every occurrence of the non-empty `pat`, found from the left and not
/// overlapping, taken out where it starts a path segment: at the start of the text
/// (unless `after_ident`) or after a character that cannot stand in an identifier.
pub open spec fn remove_segment_prefix(s: Seq<char>, pat: Seq<char>, after_ident: bool) -> Seq<char>
    decreases s.len(),
{
    if s.len() == 0 {
        Seq::empty()
    } else if !after_ident && pat.len() > 0 && pat.is_prefix_of(s) {
        remove_segment_prefix(s.skip(pat.len() as int), pat, ident_char(pat.last()))
    } else {
        seq![s[0]] + remove_segment_prefix(s.drop_first(), pat, ident_char(s[0]))
    }
}

/// Takes every occurrence of `pat` that starts a path segment out of `s`: see
/// `remove_segment_prefix`.
pub fn remove_segment_prefix_str(s: &str, pat: &str) -> (res: String)
    requires
        pat@.len() > 0,
    ensures
        res@ == remove_segment_prefix(s@, pat@, false),
{
    let sv = chars_of(s);
    let pv = chars_of(pat);
    let mut out = String::new();
    let n = sv.len();
    let mut i: usize = 0;
    let mut prev: bool = false;
    assert(s@.skip(0) =~= s@);
    assert(out@ + remove_segment_prefix(s@, pat@, false) =~= remove_segment_prefix(s@, pat@, false));
    while i < n
        invariant
            n == sv@.len(),
            sv@ == s@,
            pv@ == pat@,
            pat@.len() > 0,
            i <= n,
            out@ + remove_segment_prefix(s@.skip(i as int), pat@, prev) == remove_segment_prefix(s@, pat@, false),
        decreases n - i,
    {
        let ghost rest = s@.skip(i as int);
        if !prev && matches_at(&sv, &pv, i) {
            proof {
                assert(rest.skip(pat@.len() as int) =~= s@.skip(i + pat@.len()));
                assert(pat@.is_prefix_of(rest)) by {
                    assert(rest.subrange(0, pat@.len() as int) =~= s@.subrange(i as int, i + pat@.len()));
                }
            }
            prev = is_ident_char(pv[pv.len() - 1]);
            i = i + pv.len();
            assert(out@ + remove_segment_prefix(s@.skip(i as int), pat@, prev) =~= remove_segment_prefix(s@, pat@, false));
        } else {
            proof {
                assert(rest.drop_first() =~= s@.skip(i + 1));
                assert(rest[0] == s@[i as int]);
                if !prev && pat@.is_prefix_of(rest) {
                    assert(s@.subrange(i as int, i + pat@.len()) =~= pat@);
                }
            }
            let c = sv[i];
            push_char(&mut out, c);
            prev = is_ident_char(c);
            i = i + 1;
            assert(out@ + remove_segment_prefix(s@.skip(i as int), pat@, prev) =~= remove_segment_prefix(s@, pat@, false));
        }
    }
    assert(s@.skip(n as int) =~= Seq::<char>::empty());
    assert(out@ + Seq::<char>::empty() =~= out@);
    out
}

/// The pieces of `s` between the occurrences of the non-empty `sep`, found from
/// the left and not overlapping; one piece when `sep` does not occur.
pub open spec fn split_all(s: Seq<char>, sep: Seq<char>) -> Seq<Seq<char>>
    decreases s.len(),
{
    if s.len() == 0 {
        seq![Seq::empty()]
    } else if sep.len() > 0 && sep.is_prefix_of(s) {
        seq![Seq::<char>::empty()] + split_all(s.skip(sep.len() as int), sep)
    } else {
        let r = split_all(s.drop_first(), sep);
        r.update(0, seq![s[0]] + r[0])
    }
}

pub proof fn lemma_split_all_nonempty(s: Seq<char>, sep: Seq<char>)
    ensures
        split_all(s, sep).len() >= 1,
    decreases s.len(),
{
    if s.len() > 0 {
        if sep.len() > 0 && sep.is_prefix_of(s) {
            lemma_split_all_nonempty(s.skip(sep.len() as int), sep);
        } else {
            lemma_split_all_nonempty(s.drop_first(), sep);
        }
    }
}

/// Splits `s` at each occurrence of `sep`, as `str::split` does for a non-empty
/// separator.
pub fn split_str(s: &str, sep: &str) -> (res: Vec<String>)
    requires
        sep@.len() > 0,
    ensures
        views(res@) == split_all(s@, sep@),
{
    let sv = chars_of(s);
    let pv = chars_of(sep);
    let mut done: Vec<String> = Vec::new();
    let mut cur = String::new();
    let n = sv.len();
    let mut i: usize = 0;
    proof {
        lemma_split_all_nonempty(s@, sep@);
        let r = split_all(s@, sep@);
        assert(s@.skip(0) =~= s@);
        assert(views(done@) + seq![cur@ + r[0]] + r.drop_first() =~= r);
    }
    while i < n
        invariant
            n == sv@.len(),
            sv@ == s@,
            pv@ == sep@,
            sep@.len() > 0,
            i <= n,
            split_all(s@.skip(i as int), sep@).len() >= 1,
            views(done@) + seq![cur@ + split_all(s@.skip(i as int), sep@)[0]]
                + split_all(s@.skip(i as int), sep@).drop_first() == split_all(s@, sep@),
        decreases n - i,
    {
        let ghost rest = s@.skip(i as int);
        let ghost r0 = split_all(rest, sep@);
        let ghost d0 = views(done@);
        let ghost c0 = cur@;
        if matches_at(&sv, &pv, i) {
            proof {
                assert(rest.skip(sep@.len() as int) =~= s@.skip(i + sep@.len()));
                lemma_split_all_nonempty(s@.skip(i + sep@.len()), sep@);
            }
            let piece = cur;
            done.push(piece);
            cur = String::new();
            i = i + pv.len();
            proof {
                let r1 = split_all(s@.skip(i as int), sep@);
                assert(r0 == seq![Seq::<char>::empty()] + r1);
                assert(views(done@) =~= d0.push(c0));
                assert(views(done@) + seq![cur@ + r1[0]] + r1.drop_first()
                    =~= d0 + seq![c0 + r0[0]] + r0.drop_first());
            }
        } else {
            proof {
                assert(rest.drop_first() =~= s@.skip(i + 1));
                assert(rest[0] == s@[i as int]);
                lemma_split_all_nonempty(s@.skip(i + 1), sep@);
            }
            push_char(&mut cur, sv[i]);
            i = i + 1;
            proof {
                let r1 = split_all(s@.skip(i as int), sep@);
                assert(r0 == r1.update(0, seq![sv@[i - 1]] + r1[0]));
                assert(r0[0] == seq![sv@[i - 1]] + r1[0]);
                assert(c0 + r0[0] =~= cur@ + r1[0]);
                assert(r0.drop_first() =~= r1.drop_first());
                assert(views(done@) =~= d0);
                assert(views(done@) + seq![cur@ + r1[0]] + r1.drop_first()
                    =~= d0 + seq![c0 + r0[0]] + r0.drop_first());
            }
        }
    }
    proof {
        assert(s@.skip(n as int) =~= Seq::<char>::empty());
        let r = split_all(Seq::<char>::empty(), sep@);
        assert(r == seq![Seq::<char>::empty()]);
        assert(cur@ + r[0] =~= cur@);
    }
    let ghost d0 = done@;
    done.push(cur);
    proof {
        let r = split_all(Seq::<char>::empty(), sep@);
        assert(views(done@) =~= views(d0) + seq![done@[done@.len() - 1]@]);
        assert(r.drop_first() =~= Seq::<Seq<char>>::empty());
        assert(views(done@) =~= split_all(s@, sep@));
    }
    done
}

/// The parts joined by `sep`, as `[String]::join` does.
pub fn join_strings(parts: &Vec<String>, sep: &str) -> (res: String)
    ensures
        res@ == join(views(parts@), sep@),
{
    let mut res = String::new();
    let n = parts.len();
    for k in 0..n
        invariant
            n == parts@.len(),
            res@ == join(views(parts@).take(k as int), sep@),
    {
        proof {
            assert(views(parts@).take(k + 1).drop_last() =~= views(parts@).take(k as int));
            assert(views(parts@).take(k + 1).last() == parts@[k as int]@);
        }
        if k > 0 {
            res.append(sep);
        } else {
            assert(views(parts@).take(1) =~= seq![parts@[0]@]);
        }
        res.append(parts[k].as_str());
    }
    assert(views(parts@).take(n as int) =~= views(parts@));
    res
}

/// `n` copies of `c`.
pub open spec fn repeated(c: char, n: nat) -> Seq<char> {
    Seq::new(n, |i: int| c)
}

/// A string of `n` copies of `c`.
pub fn repeat_char(c: char, n: usize) -> (res: String)
    ensures
        res@ == repeated(c, n as nat),
{
    let mut res = String::new();
    for k in 0..n
        invariant
            res@ == repeated(c, k as nat),
    {
        push_char(&mut res, c);
        assert(res@ =~= repeated(c, (k + 1) as nat));
    }
    res
}

/// A line without the carriage return that ended it, if one did.
pub open spec fn strip_cr(line: Seq<char>) -> Seq<char> {
    if line.len() > 0 && line.last() == '\r' {
        line.drop_last()
    } else {
        line
    }
}

/// The lines completed so far in `s` and the line still open at its end.
pub open spec fn line_state(s: Seq<char>) -> (Seq<Seq<char>>, Seq<char>)
    decreases s.len(),
{
    if s.len() == 0 {
        (Seq::empty(), Seq::empty())
    } else {
        let st = line_state(s.drop_last());
        if s.last() == '\n' {
            (st.0.push(strip_cr(st.1)), Seq::empty())
        } else {
            (st.0, st.1.push(s.last()))
        }
    }
}

/// The lines of `s`, as `str::lines` gives them: ended by a newline, or by a
/// carriage return and a newline, which are not part of the line; a last line
/// without an ending counts when it is not empty.
pub open spec fn lines_of(s: Seq<char>) -> Seq<Seq<char>> {
    let st = line_state(s);
    if st.1.len() > 0 {
        st.0.push(st.1)
    } else {
        st.0
    }
}

/// Text without a newline extends the line still open.
proof fn lemma_line_state_extend(p: Seq<char>, t: Seq<char>)
    requires
        !t.contains('\n'),
    ensures
        line_state(p + t) == (line_state(p).0, line_state(p).1 + t),
    decreases t.len(),
{
    if t.len() == 0 {
        assert(p + t =~= p);
        assert(line_state(p).1 + t =~= line_state(p).1);
    } else {
        let u = t.drop_last();
        assert(!u.contains('\n')) by {
            if u.contains('\n') {
                let i = choose|i: int| 0 <= i < u.len() && u[i] == '\n';
                assert(t[i] == '\n');
            }
        }
        lemma_line_state_extend(p, u);
        assert((p + t).drop_last() =~= p + u);
        assert(t.last() != '\n') by {
            if t.last() == '\n' {
                assert(t[t.len() - 1] == '\n');
            }
        }
        assert(line_state(p).1 + u + seq![t.last()] =~= line_state(p).1 + t);
        assert(line_state(p).1 + u + seq![t.last()] =~= (line_state(p).1 + u).push(t.last()));
    }
}

/// Lines with no newline in them, none but the last ending in a carriage return.
pub open spec fn separate_lines(ls: Seq<Seq<char>>) -> bool {
    &&& forall|i: int| 0 <= i < ls.len() ==> !(#[trigger] ls[i]).contains('\n')
    &&& forall|i: int| 0 <= i < ls.len() - 1 ==> strip_cr(#[trigger] ls[i]) == ls[i]
}

/// Joining such lines by newlines leaves all but the last completed, the last open.
proof fn lemma_line_state_join(ls: Seq<Seq<char>>)
    requires
        ls.len() > 0,
        separate_lines(ls),
    ensures
        line_state(join(ls, "\n"@)) == (ls.drop_last(), ls.last()),
    decreases ls.len(),
{
    if ls.len() == 1 {
        lemma_line_state_extend(Seq::empty(), ls[0]);
        assert(Seq::<char>::empty() + ls[0] =~= ls[0]);
        assert(Seq::<char>::empty() + ls[0] =~= ls[0]);
        assert(ls.drop_last() =~= Seq::<Seq<char>>::empty());
        assert(line_state(Seq::<char>::empty()) == (Seq::<Seq<char>>::empty(), Seq::<char>::empty()));
    } else {
        let d = ls.drop_last();
        assert(separate_lines(d)) by {
            assert forall|i: int| 0 <= i < d.len() implies !(#[trigger] d[i]).contains('\n') by {
                assert(d[i] == ls[i]);
            }
            assert forall|i: int| 0 <= i < d.len() - 1 implies strip_cr(#[trigger] d[i]) == d[i] by {
                assert(d[i] == ls[i]);
            }
        }
        lemma_line_state_join(d);
        let jd = join(d, "\n"@);
        let with_nl = jd + "\n"@;
        reveal_strlit("\n");
        assert("\n"@.len() == 1 && "\n"@[0] == '\n');
        assert(with_nl.drop_last() =~= jd);
        assert(with_nl.last() == '\n');
        assert(strip_cr(d.last()) == d.last()) by {
            assert(d.last() == ls[ls.len() - 2]);
        }
        assert(d.drop_last().push(d.last()) =~= d);
        assert(line_state(with_nl) == (d, Seq::<char>::empty()));
        assert(!ls.last().contains('\n')) by {
            assert(ls.last() == ls[ls.len() - 1]);
        }
        lemma_line_state_extend(with_nl, ls.last());
        assert(Seq::<char>::empty() + ls.last() =~= ls.last());
    }
}

/// Lines joined by newlines split into the same lines again, when the last is not
/// empty.
pub proof fn lemma_lines_of_join(ls: Seq<Seq<char>>)
    requires
        separate_lines(ls),
        ls.len() == 0 || ls.last().len() > 0,
    ensures
        lines_of(join(ls, "\n"@)) == ls,
{
    if ls.len() == 0 {
        assert(line_state(Seq::<char>::empty()) == (Seq::<Seq<char>>::empty(), Seq::<char>::empty()));
    } else {
        lemma_line_state_join(ls);
        assert(ls.drop_last().push(ls.last()) =~= ls);
    }
}

/// Neither a completed line nor the open one holds a newline.
proof fn lemma_line_state_no_newline(s: Seq<char>)
    ensures
        forall|i: int| 0 <= i < line_state(s).0.len() ==> !(#[trigger] line_state(s).0[i]).contains('\n'),
        !line_state(s).1.contains('\n'),
    decreases s.len(),
{
    if s.len() > 0 {
        lemma_line_state_no_newline(s.drop_last());
        let st = line_state(s.drop_last());
        if s.last() == '\n' {
            assert(!strip_cr(st.1).contains('\n')) by {
                if strip_cr(st.1).contains('\n') {
                    let i = choose|i: int| 0 <= i < strip_cr(st.1).len() && strip_cr(st.1)[i] == '\n';
                    assert(st.1[i] == '\n');
                }
            }
            assert forall|i: int| 0 <= i < line_state(s).0.len() implies !(#[trigger] line_state(s).0[i]).contains('\n') by {
                if i < st.0.len() {
                    assert(line_state(s).0[i] == st.0[i]);
                }
            }
            assert(line_state(s).1 =~= Seq::<char>::empty());
        } else {
            assert(!line_state(s).1.contains('\n')) by {
                if line_state(s).1.contains('\n') {
                    let i = choose|i: int| 0 <= i < line_state(s).1.len() && line_state(s).1[i] == '\n';
                    if i < st.1.len() {
                        assert(st.1[i] == '\n');
                    }
                }
            }
        }
    }
}

/// No line of a text holds a newline.
pub proof fn lemma_lines_of_no_newline(s: Seq<char>)
    ensures
        forall|i: int| 0 <= i < lines_of(s).len() ==> !(#[trigger] lines_of(s)[i]).contains('\n'),
{
    lemma_line_state_no_newline(s);
    let st = line_state(s);
    assert forall|i: int| 0 <= i < lines_of(s).len() implies !(#[trigger] lines_of(s)[i]).contains('\n') by {
        if i < st.0.len() {
            assert(lines_of(s)[i] == st.0[i]);
        }
    }
}

/// The lines of `s`: see `lines_of`.
pub fn lines(s: &str) -> (res: Vec<String>)
    ensures
        views(res@) == lines_of(s@),
{
    let sv = chars_of(s);
    let mut done: Vec<String> = Vec::new();
    let mut cur: Vec<char> = Vec::new();
    let n = sv.len();
    for k in 0..n
        invariant
            n == sv@.len(),
            sv@ == s@,
            (views(done@), cur@) == line_state(s@.take(k as int)),
    {
        proof {
            assert(s@.take(k + 1).drop_last() =~= s@.take(k as int));
            assert(s@.take(k + 1).last() == s@[k as int]);
        }
        let c = sv[k];
        if c == '\n' {
            if cur.len() > 0 && cur[cur.len() - 1] == '\r' {
                cur.pop();
            }
            let ghost d0 = done@;
            done.push(string_of(&cur));
            assert(views(done@) =~= views(d0).push(cur@));
            cur = Vec::new();
        } else {
            cur.push(c);
        }
    }
    assert(s@.take(n as int) =~= s@);
    if cur.len() > 0 {
        let ghost d0 = done@;
        done.push(string_of(&cur));
        assert(views(done@) =~= views(d0).push(cur@));
    }
    done
}

/// The decimal digit for `d`, which is below ten.
pub open spec fn digit_char(d: int) -> char {
    if d == 0 {
        '0'
    } else if d == 1 {
        '1'
    } else if d == 2 {
        '2'
    } else if d == 3 {
        '3'
    } else if d == 4 {
        '4'
    } else if d == 5 {
        '5'
    } else if d == 6 {
        '6'
    } else if d == 7 {
        '7'
    } else if d == 8 {
        '8'
    } else {
        '9'
    }
}

/// The decimal notation of `n`, without leading zeros.
pub open spec fn decimal(n: nat) -> Seq<char>
    decreases n,
{
    if n < 10 {
        seq![digit_char(n as int)]
    } else {
        decimal(n / 10).push(digit_char((n % 10) as int))
    }
}

fn digit(d: usize) -> (c: char)
    requires
        d < 10,
    ensures
        c == digit_char(d as int),
{
    if d == 0 {
        '0'
    } else if d == 1 {
        '1'
    } else if d == 2 {
        '2'
    } else if d == 3 {
        '3'
    } else if d == 4 {
        '4'
    } else if d == 5 {
        '5'
    } else if d == 6 {
        '6'
    } else if d == 7 {
        '7'
    } else if d == 8 {
        '8'
    } else {
        '9'
    }
}

/// The decimal notation of `n`.
pub fn decimal_string(n: usize) -> (res: String)
    ensures
        res@ == decimal(n as nat),
    decreases n,
{
    if n < 10 {
        let mut s = String::new();
        push_char(&mut s, digit(n));
        assert(s@ =~= seq![digit_char(n as int)]);
        s
    } else {
        let mut s = decimal_string(n / 10);
        push_char(&mut s, digit(n % 10));
        s
    }
}

/// The part of `s` after the last occurrence of `c`; all of `s` when `c` does not occur.
pub open spec fn after_last(s: Seq<char>, c: char) -> Seq<char>
    decreases s.len(),
{
    if s.len() == 0 {
        s
    } else if s.last() == c {
        Seq::empty()
    } else {
        after_last(s.drop_last(), c).push(s.last())
    }
}

/// `s` with the non-empty `suf` taken off its end as many times as it ends with it.
pub open spec fn trim_suffix_all(s: Seq<char>, suf: Seq<char>) -> Seq<char>
    decreases s.len(),
{
    if suf.len() > 0 && suf.is_suffix_of(s) {
        trim_suffix_all(s.take(s.len() - suf.len()), suf)
    } else {
        s
    }
}

/// Joining with a first part in front adds that part and the separator.
pub proof fn lemma_join_prepend(a: Seq<char>, r: Seq<Seq<char>>, sep: Seq<char>)
    requires
        r.len() >= 1,
    ensures
        join(seq![a] + r, sep) == a + sep + join(r, sep),
    decreases r.len(),
{
    let ar = seq![a] + r;
    if r.len() == 1 {
        assert(ar.drop_last() =~= seq![a]);
        assert(ar.last() == r[0]);
        assert(join(seq![a], sep) == a);
        assert(join(r, sep) == r[0]);
        assert(join(ar, sep) == join(ar.drop_last(), sep) + sep + ar.last());
    } else {
        lemma_join_prepend(a, r.drop_last(), sep);
        assert(ar.drop_last() =~= seq![a] + r.drop_last());
        assert(ar.last() == r.last());
        assert(join(ar, sep) == join(ar.drop_last(), sep) + sep + ar.last());
        assert(a + sep + join(r.drop_last(), sep) + sep + r.last() =~= a + sep + (join(r.drop_last(), sep) + sep + r.last()));
    }
}

/// Putting `p` in front of the first part puts it in front of the joined text.
pub proof fn lemma_join_extend_first(p: Seq<char>, r: Seq<Seq<char>>, sep: Seq<char>)
    requires
        r.len() >= 1,
    ensures
        join(r.update(0, p + r[0]), sep) == p + join(r, sep),
    decreases r.len(),
{
    let u = r.update(0, p + r[0]);
    if r.len() == 1 {
        assert(u[0] == p + r[0]);
    } else {
        lemma_join_extend_first(p, r.drop_last(), sep);
        assert(u.drop_last() =~= r.drop_last().update(0, p + r.drop_last()[0]));
        assert(u.last() == r.last());
        assert(p + join(r.drop_last(), sep) + sep + r.last() =~= p + (join(r.drop_last(), sep) + sep + r.last()));
    }
}

/// Splitting a text at a non-empty separator and joining the pieces with it gives
/// the text back.
pub proof fn law_join_undoes_split(s: Seq<char>, sep: Seq<char>)
    requires
        sep.len() > 0,
    ensures
        join(split_all(s, sep), sep) == s,
    decreases s.len(),
{
    if s.len() == 0 {
    } else if sep.is_prefix_of(s) {
        let rest = s.skip(sep.len() as int);
        law_join_undoes_split(rest, sep);
        lemma_split_all_nonempty(rest, sep);
        lemma_join_prepend(Seq::empty(), split_all(rest, sep), sep);
        assert(sep =~= s.subrange(0, sep.len() as int));
        assert(Seq::<char>::empty() + sep + rest =~= s);
    } else {
        let r = split_all(s.drop_first(), sep);
        law_join_undoes_split(s.drop_first(), sep);
        lemma_split_all_nonempty(s.drop_first(), sep);
        lemma_join_extend_first(seq![s[0]], r, sep);
        assert(seq![s[0]] + s.drop_first() =~= s);
    }
}

} // verus!
