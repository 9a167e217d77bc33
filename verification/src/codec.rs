//! The text format in which playlists are persisted: one track identifier
//! per line. Encoding joins the identifiers with a line break and no
//! trailing break; parsing splits on line breaks and drops empty lines.
//! For identifiers that are themselves non-empty and free of line breaks —
//! every path-like identifier is — the two are exact inverses.

use vstd::prelude::*;
use crate::track::{TrackId, id_views, lemma_id_views_push};

verus! {

/// The byte that separates the lines of a persisted playlist.
pub const LINE_BREAK: u8 = 10;

/// An identifier that survives the line-based format: non-empty and free
/// of line breaks.
pub open spec fn line_ok(t: Seq<u8>) -> bool {
    t.len() > 0 && forall|i: int| 0 <= i < t.len() ==> t[i] != LINE_BREAK
}

/// The index of the first line break in `d`, or `d.len()` if none.
pub open spec fn first_break(d: Seq<u8>) -> int
    decreases d.len(),
{
    if d.len() == 0 {
        0
    } else if d[0] == LINE_BREAK {
        0
    } else {
        1 + first_break(d.drop_first())
    }
}

/// What `first_break` returns: the first index holding a break, or the
/// length when no byte is a break.
pub proof fn lemma_first_break(d: Seq<u8>)
    ensures
        0 <= first_break(d) <= d.len(),
        first_break(d) < d.len() ==> d[first_break(d)] == LINE_BREAK,
        forall|j: int| 0 <= j < first_break(d) ==> d[j] != LINE_BREAK,
    decreases d.len(),
{
    if d.len() > 0 && d[0] != LINE_BREAK {
        lemma_first_break(d.drop_first());
        assert forall|j: int| 0 <= j < first_break(d) implies d[j] != LINE_BREAK by {
            if j > 0 {
                assert(d.drop_first()[j - 1] == d[j]);
            }
        }
    }
}

/// The identifiers encoded in `d`: the non-empty segments between line
/// breaks, in order.
pub open spec fn parse_lines(d: Seq<u8>) -> Seq<Seq<u8>>
    decreases d.len(),
    via parse_lines_decreases
{
    if d.len() == 0 {
        Seq::empty()
    } else {
        let i = first_break(d);
        let head: Seq<Seq<u8>> = if i > 0 {
            seq![d.take(i)]
        } else {
            Seq::empty()
        };
        if i == d.len() {
            head
        } else {
            head + parse_lines(d.skip(i + 1))
        }
    }
}

#[via_fn]
proof fn parse_lines_decreases(d: Seq<u8>) {
    lemma_first_break(d);
}

/// The text of a playlist: its identifiers joined by single line breaks,
/// with no trailing break.
pub open spec fn encode_lines(ts: Seq<Seq<u8>>) -> Seq<u8>
    decreases ts.len(),
{
    if ts.len() == 0 {
        Seq::empty()
    } else if ts.len() == 1 {
        ts[0]
    } else {
        ts[0] + seq![LINE_BREAK] + encode_lines(ts.drop_first())
    }
}

/// Encoding one more identifier appends a break and its bytes.
pub proof fn lemma_encode_push(ts: Seq<Seq<u8>>, t: Seq<u8>)
    ensures
        encode_lines(ts.push(t)) == (if ts.len() == 0 {
            t
        } else {
            encode_lines(ts) + seq![LINE_BREAK] + t
        }),
    decreases ts.len(),
{
    let e = ts.push(t);
    if ts.len() == 0 {
        assert(e[0] == t);
        assert(encode_lines(e) == t);
    } else if ts.len() == 1 {
        assert(e.drop_first() =~= seq![t]);
        assert(encode_lines(e.drop_first()) == t);
        assert(encode_lines(ts) == ts[0]);
    } else {
        assert(e.drop_first() =~= ts.drop_first().push(t));
        lemma_encode_push(ts.drop_first(), t);
        assert(encode_lines(e) == ts[0] + seq![LINE_BREAK] + (encode_lines(ts.drop_first())
            + seq![LINE_BREAK] + t));
        assert(ts[0] + seq![LINE_BREAK] + (encode_lines(ts.drop_first()) + seq![LINE_BREAK] + t)
            =~= (ts[0] + seq![LINE_BREAK] + encode_lines(ts.drop_first())) + seq![LINE_BREAK] + t);
    }
}

/// In a break-free prefix followed by a break, the first break is exactly
/// at the prefix's length.
proof fn lemma_first_break_after(t: Seq<u8>, rest: Seq<u8>)
    requires
        forall|i: int| 0 <= i < t.len() ==> t[i] != LINE_BREAK,
    ensures
        first_break(t + seq![LINE_BREAK] + rest) == t.len(),
    decreases t.len(),
{
    let d = t + seq![LINE_BREAK] + rest;
    if t.len() == 0 {
        assert(d[0] == LINE_BREAK);
    } else {
        assert(d[0] == t[0]);
        assert(d.drop_first() =~= t.drop_first() + seq![LINE_BREAK] + rest);
        lemma_first_break_after(t.drop_first(), rest);
    }
}

/// A break-free sequence has its first break at its length.
proof fn lemma_first_break_clean(t: Seq<u8>)
    requires
        forall|i: int| 0 <= i < t.len() ==> t[i] != LINE_BREAK,
    ensures
        first_break(t) == t.len(),
{
    lemma_first_break(t);
}

/// Saving a playlist and loading it back returns the identical ordered
/// sequence of identifiers, for identifiers that are non-empty and free
/// of line breaks.
pub proof fn lemma_playlist_round_trip(ts: Seq<Seq<u8>>)
    requires
        forall|i: int| 0 <= i < ts.len() ==> line_ok(#[trigger] ts[i]),
    ensures
        parse_lines(encode_lines(ts)) == ts,
    decreases ts.len(),
{
    let e = encode_lines(ts);
    if ts.len() == 0 {
        assert(parse_lines(e) =~= ts);
    } else if ts.len() == 1 {
        assert(line_ok(ts[0]));
        assert(e == ts[0]);
        lemma_first_break_clean(e);
        assert(e.take(e.len() as int) =~= e);
        assert(parse_lines(e) =~= ts);
    } else {
        assert(line_ok(ts[0]));
        let rest = encode_lines(ts.drop_first());
        assert(e == ts[0] + seq![LINE_BREAK] + rest);
        lemma_first_break_after(ts[0], rest);
        let i = first_break(e);
        assert(i == ts[0].len());
        assert(e.len() == ts[0].len() + 1 + rest.len());
        assert(e.take(i) =~= ts[0]);
        assert(e.skip(i + 1) =~= rest);
        assert forall|k: int| 0 <= k < ts.drop_first().len() implies line_ok(
            #[trigger] ts.drop_first()[k],
        ) by {
            assert(ts.drop_first()[k] == ts[k + 1]);
        }
        lemma_playlist_round_trip(ts.drop_first());
        assert(parse_lines(e) == seq![ts[0]] + ts.drop_first());
        assert(seq![ts[0]] + ts.drop_first() =~= ts);
    }
}

/// Whether a track identifier survives the line-based format.
pub fn fits_line(t: &TrackId) -> (r: bool)
    ensures
        r == line_ok(t@),
{
    let bytes = t.bytes();
    if bytes.len() == 0 {
        return false;
    }
    let mut i: usize = 0;
    while i < bytes.len()
        invariant
            i <= bytes.len(),
            bytes@ == t@,
            forall|j: int| 0 <= j < i ==> t@[j] != LINE_BREAK,
        decreases bytes.len() - i,
    {
        if bytes[i] == LINE_BREAK {
            return false;
        }
        i = i + 1;
    }
    true
}

/// Renders a playlist in the persisted text format: identifiers joined by
/// line breaks.
pub fn encode_playlist(tracks: &Vec<TrackId>) -> (out: Vec<u8>)
    ensures
        out@ == encode_lines(id_views(tracks@)),
{
    let ghost vs = id_views(tracks@);
    let mut out: Vec<u8> = Vec::new();
    let mut i: usize = 0;
    proof {
        assert(vs.take(0) =~= Seq::<Seq<u8>>::empty());
    }
    while i < tracks.len()
        invariant
            i <= tracks.len(),
            vs == id_views(tracks@),
            vs.len() == tracks@.len(),
            out@ == encode_lines(vs.take(i as int)),
        decreases tracks.len() - i,
    {
        let ghost before = out@;
        if i > 0 {
            out.push(LINE_BREAK);
        }
        let bytes = tracks[i].bytes();
        let mut j: usize = 0;
        while j < bytes.len()
            invariant
                j <= bytes.len(),
                bytes@ == tracks@[i as int]@,
                i < tracks@.len(),
                out@ == (if i > 0 {
                    before.push(LINE_BREAK)
                } else {
                    before
                }) + bytes@.take(j as int),
            decreases bytes.len() - j,
        {
            out.push(bytes[j]);
            proof {
                assert(out@ =~= (if i > 0 {
                    before.push(LINE_BREAK)
                } else {
                    before
                }) + bytes@.take(j + 1));
            }
            j = j + 1;
        }
        proof {
            lemma_encode_push(vs.take(i as int), vs[i as int]);
            assert(vs.take(i + 1) =~= vs.take(i as int).push(vs[i as int]));
            assert(bytes@.take(bytes@.len() as int) =~= vs[i as int]);
            if i > 0 {
                assert(before.push(LINE_BREAK) =~= before + seq![LINE_BREAK]);
                assert(before + seq![LINE_BREAK] + vs[i as int] =~= (before + seq![LINE_BREAK])
                    + vs[i as int]);
                assert(out@ == encode_lines(vs.take(i + 1)));
            } else {
                assert(before =~= Seq::<u8>::empty());
                assert(out@ =~= vs[i as int]);
                assert(vs.take(1)[0] == vs[0]);
                assert(out@ == encode_lines(vs.take(i + 1)));
            }
        }
        i = i + 1;
    }
    proof {
        assert(vs.take(tracks@.len() as int) =~= vs);
    }
    out
}

/// Reads a playlist back from the persisted text format: the non-empty
/// lines, in order, as track identifiers.
pub fn parse_playlist(data: &Vec<u8>) -> (out: Vec<TrackId>)
    ensures
        id_views(out@) == parse_lines(data@),
{
    let ghost d = data@;
    let mut out: Vec<TrackId> = Vec::new();
    let mut pos: usize = 0;
    proof {
        assert(id_views(out@) =~= Seq::<Seq<u8>>::empty());
        assert(d.skip(0) =~= d);
    }
    while pos < data.len()
        invariant
            pos <= data.len(),
            d == data@,
            parse_lines(d) == id_views(out@) + parse_lines(d.skip(pos as int)),
        decreases data.len() - pos,
    {
        let ghost s = d.skip(pos as int);
        let mut j: usize = pos;
        while j < data.len() && data[j] != LINE_BREAK
            invariant
                pos <= j <= data.len(),
                d == data@,
                forall|m: int| pos <= m < j ==> d[m] != LINE_BREAK,
            decreases data.len() - j,
        {
            j = j + 1;
        }
        proof {
            lemma_first_break(s);
            assert(s.len() == d.len() - pos);
            assert forall|m: int| 0 <= m < j - pos implies s[m] != LINE_BREAK by {
                assert(s[m] == d[m + pos]);
            }
            if j < data.len() {
                assert(s[j - pos] == d[j as int]);
                assert(s[j - pos] == LINE_BREAK);
            }
            assert(first_break(s) == j - pos);
        }
        if j > pos {
            let mut line: Vec<u8> = Vec::new();
            let mut k: usize = pos;
            while k < j
                invariant
                    pos <= k <= j <= data.len(),
                    d == data@,
                    line@ == d.subrange(pos as int, k as int),
                decreases j - k,
            {
                line.push(data[k]);
                proof {
                    assert(line@ =~= d.subrange(pos as int, k + 1));
                }
                k = k + 1;
            }
            proof {
                assert(line@ =~= s.take(j - pos));
            }
            let ghost before = out@;
            out.push(TrackId::new(line));
            proof {
                lemma_id_views_push(before, out@[out@.len() - 1]);
                assert(id_views(out@) =~= id_views(before).push(s.take(j - pos)));
                assert(id_views(out@) =~= id_views(before) + seq![s.take(j - pos)]);
            }
        }
        let next = if j < data.len() {
            j + 1
        } else {
            j
        };
        proof {
            let i = first_break(s);
            if j < data.len() {
                assert(i < s.len());
                assert(s.skip(i + 1) =~= d.skip(j + 1));
                if i > 0 {
                    assert(parse_lines(s) == seq![s.take(i)] + parse_lines(d.skip(j + 1)));
                } else {
                    assert(parse_lines(s) == parse_lines(d.skip(j + 1)));
                    assert(Seq::<Seq<u8>>::empty() + parse_lines(d.skip(j + 1)) =~= parse_lines(
                        d.skip(j + 1),
                    ));
                }
            } else {
                assert(i == s.len());
                assert(i > 0);
                assert(parse_lines(s) == seq![s.take(i)]);
                assert(d.skip(data@.len() as int) =~= Seq::<u8>::empty());
            }
            assert(parse_lines(d) == id_views(out@) + parse_lines(d.skip(next as int))) by {
                assert((id_views(out@) + parse_lines(d.skip(next as int))) =~~= parse_lines(d));
            }
        }
        pos = next;
    }
    proof {
        assert(d.skip(d.len() as int) =~= Seq::<u8>::empty());
        assert(id_views(out@) + parse_lines(d.skip(pos as int)) =~= id_views(out@));
    }
    out
}

} // verus!
