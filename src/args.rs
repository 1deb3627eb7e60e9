//! Materialising a command line from its configured text.
//!
//! The text is split on the single ASCII space character and nothing else:
//! there is no quoting or escaping, so an argument that itself holds a space
//! cannot be written. Two spaces in a row give an empty argument between them.
use vstd::prelude::*;

verus! {

/// The space-separated pieces of `s`, as `str::split(' ')` yields them:
/// always at least one piece, empty pieces kept.
pub open spec fn pieces(s: Seq<char>) -> Seq<Seq<char>>
    decreases s.len(),
{
    if s.len() == 0 {
        seq![Seq::empty()]
    } else {
        let rest = pieces(s.drop_first());
        if s[0] == ' ' {
            seq![Seq::empty()] + rest
        } else {
            rest.update(0, seq![s[0]] + rest[0])
        }
    }
}

/// The arguments that the text `s` stands for: none for the empty text,
/// otherwise its space-separated pieces.
pub open spec fn split_spec(s: Seq<char>) -> Seq<Seq<char>> {
    if s.len() == 0 {
        Seq::empty()
    } else {
        pieces(s)
    }
}

/// The tokens `ts` written one after another with one space between each two.
pub open spec fn join_spec(ts: Seq<Seq<char>>) -> Seq<char>
    decreases ts.len(),
{
    if ts.len() == 0 {
        Seq::empty()
    } else if ts.len() == 1 {
        ts[0]
    } else {
        ts[0] + seq![' '] + join_spec(ts.drop_first())
    }
}

/// A token that can stand in a space-separated command line as it is.
pub open spec fn plain_token(t: Seq<char>) -> bool {
    t.len() > 0 && forall|k: int| 0 <= k < t.len() ==> t[k] != ' '
}

/// The views of a vector of strings.
pub open spec fn strings_view(v: Seq<String>) -> Seq<Seq<char>> {
    v.map_values(|s: String| s@)
}

/// A text without spaces is a single piece.
proof fn lemma_pieces_plain(t: Seq<char>)
    requires
        forall|k: int| 0 <= k < t.len() ==> t[k] != ' ',
    ensures
        pieces(t) == seq![t],
    decreases t.len(),
{
    if t.len() > 0 {
        lemma_pieces_plain(t.drop_first());
        assert(seq![t[0]] + t.drop_first() =~= t);
        assert(pieces(t) =~= seq![t]);
    } else {
        assert(t =~= Seq::empty());
    }
}

/// A text without spaces, a space, then `u`: the text is the first piece.
proof fn lemma_pieces_cut(t: Seq<char>, u: Seq<char>)
    requires
        forall|k: int| 0 <= k < t.len() ==> t[k] != ' ',
    ensures
        pieces(t + seq![' '] + u) == seq![t] + pieces(u),
    decreases t.len(),
{
    let s = t + seq![' '] + u;
    if t.len() == 0 {
        assert(s.drop_first() =~= u);
        assert(s[0] == ' ');
        assert(t =~= Seq::empty());
        assert(seq![Seq::<char>::empty()] + pieces(u) =~= seq![t] + pieces(u));
    } else {
        let t1 = t.drop_first();
        lemma_pieces_cut(t1, u);
        assert(s.drop_first() =~= t1 + seq![' '] + u);
        assert(s[0] == t[0]);
        assert(seq![t[0]] + t1 =~= t);
        assert(pieces(s) =~= seq![t] + pieces(u));
    }
}

/// Splitting is idempotent on text that is already token-separated: joining
/// tokens that are non-empty and hold no space, then splitting, gives the
/// same tokens back (and the empty text gives no token).
pub proof fn lemma_split_join(ts: Seq<Seq<char>>)
    requires
        forall|i: int| 0 <= i < ts.len() ==> plain_token(#[trigger] ts[i]),
    ensures
        split_spec(join_spec(ts)) == ts,
    decreases ts.len(),
{
    if ts.len() == 1 {
        lemma_pieces_plain(ts[0]);
        assert(seq![ts[0]] =~= ts);
    } else if ts.len() >= 2 {
        let rest = ts.drop_first();
        assert(forall|i: int| 0 <= i < rest.len() ==> rest[i] == ts[i + 1]);
        lemma_split_join(rest);
        lemma_pieces_cut(ts[0], join_spec(rest));
        assert(plain_token(ts[1]));
        lemma_join_nonempty(rest);
        assert(seq![ts[0]] + rest =~= ts);
    }
}

proof fn lemma_join_nonempty(ts: Seq<Seq<char>>)
    requires
        ts.len() >= 1,
        ts[0].len() > 0,
    ensures
        join_spec(ts).len() > 0,
{
}

/// Splits a configured argument text into the argument list: the empty text
/// gives no argument, any other text its pieces between single spaces.
pub fn split_args(s: &str) -> (r: Vec<String>)
    ensures
        strings_view(r@) == split_spec(s@),
{
    let n = s.unicode_len();
    let mut out: Vec<String> = Vec::new();
    if n == 0 {
        assert(strings_view(out@) =~= split_spec(s@));
        return out;
    }
    let mut start: usize = 0;
    let mut i: usize = 0;
    assert(s@.subrange(0, n as int) =~= s@);
    assert(strings_view(out@) + pieces(s@) =~= pieces(s@));
    while i < n
        invariant
            n == s@.len(),
            start <= i <= n,
            forall|k: int| start <= k < i ==> s@[k] != ' ',
            pieces(s@) == strings_view(out@) + pieces(s@.subrange(start as int, n as int)),
        decreases n - i,
    {
        let c = s.get_char(i);
        if c == ' ' {
            let tok = s.substring_char(start, i);
            let ghost t = tok@;
            let ghost u = s@.subrange(i + 1, n as int);
            assert(s@.subrange(start as int, n as int) =~= t + seq![' '] + u);
            proof {
                lemma_pieces_cut(t, u);
            }
            let piece = String::from_str(tok);
            let ghost before = out@;
            out.push(piece);
            assert(strings_view(out@) =~= strings_view(before) + seq![t]);
            assert(pieces(s@) =~= strings_view(out@) + pieces(u));
            start = i + 1;
        }
        i = i + 1;
    }
    let tok = s.substring_char(start, n);
    proof {
        lemma_pieces_plain(tok@);
    }
    let piece = String::from_str(tok);
    let ghost before = out@;
    out.push(piece);
    assert(strings_view(out@) =~= strings_view(before) + seq![tok@]);
    out
}

} // verus!
