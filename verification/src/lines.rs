//! Splitting input text into lines, and joining lines back.
//!
//! A line is terminated by a single line feed; the final line of a text that
//! does not end in a line feed is also a line. Carriage returns are not
//! treated as line terminators: a carriage return is a control character, so
//! a line carrying one is rejected later unless it sits inside a comment.
//! Joining the lines of `s` with a line feed after each reproduces `s`
//! exactly when `s` is empty or ends with a line feed.

use vstd::prelude::*;
use vstd::string::*;

verus! {

/// The lines of `s`: the segments between line feeds, the terminating line
/// feeds excluded. A final segment without a terminating line feed is a
/// line; a trailing line feed does not open an empty final line.
pub open spec fn lines_of(s: Seq<char>) -> Seq<Seq<char>>
    decreases s.len(),
{
    if s.len() == 0 {
        Seq::<Seq<char>>::empty()
    } else if s[0] == '\n' {
        seq![Seq::<char>::empty()] + lines_of(s.drop_first())
    } else {
        let rest = lines_of(s.drop_first());
        if rest.len() == 0 {
            seq![seq![s[0]]]
        } else {
            seq![seq![s[0]] + rest[0]] + rest.drop_first()
        }
    }
}

/// The lines joined back into one text, with a line feed after every line.
pub open spec fn join_lines(ls: Seq<Seq<char>>) -> Seq<char>
    decreases ls.len(),
{
    if ls.len() == 0 {
        Seq::<char>::empty()
    } else {
        ls[0] + seq!['\n'] + join_lines(ls.drop_first())
    }
}

/// A nonempty text has at least one line.
pub proof fn lemma_lines_nonempty(s: Seq<char>)
    requires
        s.len() > 0,
    ensures
        lines_of(s).len() > 0,
{
}

/// Splitting off a complete first line: if `head` contains no line feed,
/// the lines of `head + "\n" + rest` are `head` followed by the lines of
/// `rest`.
pub proof fn lemma_lines_prepend(head: Seq<char>, rest: Seq<char>)
    requires
        forall|i: int| 0 <= i < head.len() ==> head[i] != '\n',
    ensures
        lines_of(head + seq!['\n'] + rest) == seq![head] + lines_of(rest),
    decreases head.len(),
{
    let s = head + seq!['\n'] + rest;
    if head.len() == 0 {
        assert(head =~= Seq::<char>::empty());
        assert(s =~= seq!['\n'] + rest);
        assert(s[0] == '\n');
        assert(s.drop_first() =~= rest);
        assert(lines_of(s) == seq![Seq::<char>::empty()] + lines_of(rest));
        assert(lines_of(s) =~~= seq![head] + lines_of(rest));
    } else {
        assert(s[0] == head[0]);
        assert(s[0] != '\n');
        assert(s.drop_first() =~= head.drop_first() + seq!['\n'] + rest);
        lemma_lines_prepend(head.drop_first(), rest);
        let r = lines_of(s.drop_first());
        assert(r == seq![head.drop_first()] + lines_of(rest));
        assert(r.len() > 0);
        assert(r[0] == head.drop_first());
        assert(seq![s[0]] + r[0] =~= head);
        assert(r.drop_first() =~~= lines_of(rest));
        assert(lines_of(s) == seq![seq![s[0]] + r[0]] + r.drop_first());
        assert(lines_of(s) =~~= seq![head] + lines_of(rest));
    }
}

/// A nonempty text without a line feed is a single line.
pub proof fn lemma_lines_single(head: Seq<char>)
    requires
        head.len() > 0,
        forall|i: int| 0 <= i < head.len() ==> head[i] != '\n',
    ensures
        lines_of(head) == seq![head],
    decreases head.len(),
{
    if head.len() == 1 {
        assert(head.drop_first().len() == 0);
        assert(lines_of(head.drop_first()).len() == 0);
        assert(lines_of(head) == seq![seq![head[0]]]);
        assert(seq![head[0]] =~= head);
        assert(lines_of(head) =~~= seq![head]);
    } else {
        assert(head[0] != '\n');
        lemma_lines_single(head.drop_first());
        let r = lines_of(head.drop_first());
        assert(r == seq![head.drop_first()]);
        assert(r.len() > 0);
        assert(lines_of(head) == seq![seq![head[0]] + r[0]] + r.drop_first());
        assert(seq![head[0]] + r[0] =~= head);
        assert(r.drop_first() =~~= Seq::<Seq<char>>::empty());
        assert(lines_of(head) =~~= seq![head]);
    }
}

/// Joining the lines of `s` reproduces `s` exactly when `s` is empty or
/// ends with a line feed.
pub proof fn lemma_join_lines_of(s: Seq<char>)
    requires
        s.len() == 0 || s[s.len() - 1] == '\n',
    ensures
        join_lines(lines_of(s)) == s,
    decreases s.len(),
{
    if s.len() == 0 {
    } else if s[0] == '\n' {
        let rest = s.drop_first();
        lemma_join_lines_of(rest);
        assert(lines_of(s) == seq![Seq::<char>::empty()] + lines_of(rest));
        assert(lines_of(s).drop_first() =~= lines_of(rest));
        assert(join_lines(lines_of(s)) =~= s);
    } else {
        let rest = s.drop_first();
        assert(rest.len() > 0);
        assert(rest[rest.len() - 1] == '\n');
        lemma_join_lines_of(rest);
        lemma_lines_nonempty(rest);
        let r = lines_of(rest);
        let ls = lines_of(s);
        assert(ls == seq![seq![s[0]] + r[0]] + r.drop_first());
        assert(ls.len() > 0);
        assert(ls[0] == seq![s[0]] + r[0]);
        assert(ls.drop_first() =~~= r.drop_first());
        assert(join_lines(r) == r[0] + seq!['\n'] + join_lines(r.drop_first()));
        assert(join_lines(ls) == ls[0] + seq!['\n'] + join_lines(ls.drop_first()));
        assert(join_lines(ls.drop_first()) == join_lines(r.drop_first()));
        assert(r[0] + seq!['\n'] + join_lines(r.drop_first()) == rest);
        assert(join_lines(ls) =~= seq![s[0]] + rest);
        assert(seq![s[0]] + rest =~= s);
    }
}

/// Joining one more line appends it and its line feed.
pub proof fn lemma_join_lines_push(d: Seq<Seq<char>>, x: Seq<char>)
    ensures
        join_lines(d.push(x)) == join_lines(d) + x + seq!['\n'],
    decreases d.len(),
{
    if d.len() == 0 {
        assert(d.push(x) =~~= seq![x]);
        assert(join_lines(seq![x]).len() > 0);
        assert(seq![x].drop_first() =~~= Seq::<Seq<char>>::empty());
        assert(join_lines(d.push(x)) =~= join_lines(d) + x + seq!['\n']);
    } else {
        assert(d.push(x)[0] == d[0]);
        assert(d.push(x).drop_first() =~~= d.drop_first().push(x));
        lemma_join_lines_push(d.drop_first(), x);
        assert(join_lines(d.push(x)) == d[0] + seq!['\n'] + join_lines(d.push(x).drop_first()));
        assert(join_lines(d.push(x).drop_first()) == join_lines(d.drop_first()) + x + seq!['\n']);
        assert(join_lines(d) == d[0] + seq!['\n'] + join_lines(d.drop_first()));
        assert(join_lines(d.push(x)) =~= join_lines(d) + x + seq!['\n']);
    }
}

/// Split `s` into its lines.
pub fn split_lines(s: &str) -> (r: Vec<String>)
    ensures
        r.deep_view() == lines_of(s@),
{
    let n = s.unicode_len();
    let mut out: Vec<String> = Vec::new();
    let mut start: usize = 0;
    let mut i: usize = 0;
    proof {
        assert(s@.subrange(0, n as int) =~= s@);
        assert(out.deep_view() =~~= Seq::<Seq<char>>::empty());
        assert(lines_of(s@) =~~= out.deep_view() + lines_of(s@.subrange(0, n as int)));
    }
    while i < n
        invariant
            start <= i <= n,
            n == s@.len(),
            lines_of(s@) == out.deep_view() + lines_of(s@.subrange(start as int, n as int)),
            forall|j: int| start <= j < i ==> s@[j] != '\n',
        decreases n - i,
    {
        if s.get_char(i) == '\n' {
            let ghost prev = out.deep_view();
            let ghost head = s@.subrange(start as int, i as int);
            let line = s.substring_char(start, i).to_owned();
            out.push(line);
            proof {
                let tail = s@.subrange(i + 1, n as int);
                assert(s@.subrange(start as int, n as int) =~= head + seq!['\n'] + tail);
                lemma_lines_prepend(head, tail);
                assert(out.deep_view() =~~= prev + seq![head]);
                assert(out.deep_view() + lines_of(tail) =~~= prev + (seq![head] + lines_of(tail)));
            }
            start = i + 1;
        }
        i = i + 1;
    }
    if start < n {
        let ghost prev = out.deep_view();
        let ghost head = s@.subrange(start as int, n as int);
        let line = s.substring_char(start, n).to_owned();
        out.push(line);
        proof {
            lemma_lines_single(head);
            assert(out.deep_view() =~~= prev + seq![head]);
            assert(lines_of(s@) =~~= out.deep_view());
        }
    } else {
        proof {
            assert(s@.subrange(start as int, n as int) =~= Seq::<char>::empty());
            assert(lines_of(s@) =~~= out.deep_view());
        }
    }
    out
}

} // verus!
