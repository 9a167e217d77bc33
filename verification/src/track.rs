//! Track identifiers: stable, path-like byte strings that name a playable
//! resource. The playlist and the playback session refer to tracks only
//! through these identifiers.

use vstd::prelude::*;

verus! {

/// A stable identifier for a playable audio resource, held as the bytes of
/// its path-like name. Identifiers are compared byte for byte.
pub struct TrackId {
    bytes: Vec<u8>,
}

impl View for TrackId {
    type V = Seq<u8>;

    closed spec fn view(&self) -> Seq<u8> {
        self.bytes@
    }
}

/// The identifiers of a sequence of tracks, as byte strings.
pub open spec fn id_views(s: Seq<TrackId>) -> Seq<Seq<u8>> {
    Seq::new(s.len(), |i: int| s[i]@)
}

/// The path separators an identifier may contain.
pub open spec fn is_sep(c: u8) -> bool {
    c == 47 || c == 92
}

/// `s` with its trailing path separators removed: they name the same
/// final component.
pub open spec fn strip_trailing_seps(s: Seq<u8>) -> Seq<u8>
    decreases s.len(),
{
    if s.len() > 0 && is_sep(s.last()) {
        strip_trailing_seps(s.drop_last())
    } else {
        s
    }
}

/// The index just past the last path separator of `s`, or zero: where the
/// final component of the identifier begins.
pub open spec fn name_start(s: Seq<u8>) -> int
    decreases s.len(),
{
    if s.len() == 0 {
        0
    } else if is_sep(s.last()) {
        s.len() as int
    } else {
        name_start(s.drop_last())
    }
}

/// The file name the identifier ends in: its final component, with
/// trailing separators ignored. Empty when the identifier is empty or all
/// separators.
pub open spec fn file_name_of(s: Seq<u8>) -> Seq<u8> {
    let t = strip_trailing_seps(s);
    t.skip(name_start(t))
}

/// A dot-only component: the current or parent directory, which is no
/// file name.
pub open spec fn dot_only(name: Seq<u8>) -> bool {
    name == seq![46u8] || name == seq![46u8, 46u8]
}

/// The index of the last dot of `name`, or -1 when it has none.
pub open spec fn last_dot(name: Seq<u8>) -> int
    decreases name.len(),
{
    if name.len() == 0 {
        -1
    } else if name.last() == 46 {
        name.len() - 1
    } else {
        last_dot(name.drop_last())
    }
}

/// The placeholder shown for an identifier without a file name.
pub open spec fn unknown_name() -> Seq<u8> {
    seq![85u8, 110u8, 107u8, 110u8, 111u8, 119u8, 110u8]
}

/// The display name derived from an identifier: the stem of its file
/// name — the final component, with the part from the last dot on
/// stripped, unless that dot starts the name. An identifier with no file
/// name (empty, all separators, or a dot-only component) shows a
/// placeholder.
pub open spec fn display_name_of(s: Seq<u8>) -> Seq<u8> {
    let name = file_name_of(s);
    if name.len() == 0 || dot_only(name) {
        unknown_name()
    } else if last_dot(name) > 0 {
        name.take(last_dot(name))
    } else {
        name
    }
}

/// ASCII lower case of one byte.
pub open spec fn lower(c: u8) -> u8 {
    if 65 <= c && c <= 90 {
        (c + 32) as u8
    } else {
        c
    }
}

/// Whether the identifier names an audio file the player accepts: its
/// file name has an extension that lower-cases to mp3, wav, ogg or flac.
/// A dot-only component has no extension.
pub open spec fn is_audio_name(s: Seq<u8>) -> bool {
    let name = file_name_of(s);
    !dot_only(name) && last_dot(name) > 0 && {
        let ext = name.skip(last_dot(name) + 1).map_values(|c: u8| lower(c));
        ||| ext == seq![109u8, 112u8, 51u8]
        ||| ext == seq![119u8, 97u8, 118u8]
        ||| ext == seq![111u8, 103u8, 103u8]
        ||| ext == seq![102u8, 108u8, 97u8, 99u8]
    }
}

/// The placeholder text, as bytes.
fn unknown_text() -> (r: Vec<u8>)
    ensures
        r@ == unknown_name(),
{
    let mut out: Vec<u8> = Vec::new();
    out.push(85);
    out.push(110);
    out.push(107);
    out.push(110);
    out.push(111);
    out.push(119);
    out.push(110);
    proof {
        assert(out@ =~= unknown_name());
    }
    out
}

/// Appending a track commutes with taking identifier views.
pub proof fn lemma_id_views_push(s: Seq<TrackId>, t: TrackId)
    ensures
        id_views(s.push(t)) == id_views(s).push(t@),
{
    assert(id_views(s.push(t)) =~= id_views(s).push(t@));
}

impl TrackId {
    /// Wraps the bytes of a path-like name as a track identifier.
    pub fn new(bytes: Vec<u8>) -> (t: TrackId)
        ensures
            t@ == bytes@,
    {
        TrackId { bytes }
    }

    /// The bytes of the identifier.
    pub fn bytes(&self) -> (r: &Vec<u8>)
        ensures
            r@ == self@,
    {
        &self.bytes
    }

    /// A fresh identifier with the same bytes.
    pub fn duplicate(&self) -> (r: TrackId)
        ensures
            r@ == self@,
    {
        let mut copy: Vec<u8> = Vec::new();
        let mut i: usize = 0;
        while i < self.bytes.len()
            invariant
                i <= self.bytes.len(),
                copy@ == self.bytes@.take(i as int),
            decreases self.bytes.len() - i,
        {
            copy.push(self.bytes[i]);
            i = i + 1;
            proof {
                assert(copy@ =~= self.bytes@.take(i as int));
            }
        }
        proof {
            assert(copy@ =~= self.bytes@);
        }
        TrackId { bytes: copy }
    }

    /// How long the identifier is once its trailing separators are gone.
    fn strip_end(&self) -> (e: usize)
        ensures
            e <= self@.len(),
            self@.take(e as int) == strip_trailing_seps(self@),
    {
        let ghost s = self@;
        let mut e: usize = self.bytes.len();
        proof {
            assert(s.take(s.len() as int) =~= s);
        }
        while e > 0 && (self.bytes[e - 1] == 47 || self.bytes[e - 1] == 92)
            invariant
                e <= s.len(),
                s == self@,
                strip_trailing_seps(s.take(e as int)) == strip_trailing_seps(s),
            decreases e,
        {
            proof {
                assert(s.take(e as int).last() == s[e - 1]);
                assert(s.take(e as int).drop_last() =~= s.take(e - 1));
            }
            e = e - 1;
        }
        proof {
            if e > 0 {
                assert(s.take(e as int).last() == s[e - 1]);
            }
            assert(strip_trailing_seps(s.take(e as int)) == s.take(e as int));
        }
        e
    }

    /// Where the final component begins within the first `end` bytes.
    fn find_name_start(&self, end: usize) -> (start: usize)
        requires
            end <= self@.len(),
        ensures
            start as int == name_start(self@.take(end as int)),
            start <= end,
    {
        let ghost s = self@;
        let mut start: usize = 0;
        let mut i: usize = 0;
        proof {
            assert(s.take(0) =~= Seq::<u8>::empty());
        }
        while i < end
            invariant
                i <= end <= s.len(),
                s == self@,
                start as int == name_start(s.take(i as int)),
                start <= i,
            decreases end - i,
        {
            proof {
                assert(s.take(i + 1).drop_last() =~= s.take(i as int));
                assert(s.take(i + 1).last() == s[i as int]);
            }
            if self.bytes[i] == 47 || self.bytes[i] == 92 {
                start = i + 1;
            }
            i = i + 1;
        }
        start
    }

    /// The position of the final component's last dot, if it has one. The
    /// component is the byte range `start .. end`.
    fn find_last_dot(&self, start: usize, end: usize) -> (r: Option<usize>)
        requires
            start < end <= self@.len(),
        ensures
            match r {
                Option::Some(d) => start <= d < end && d - start == last_dot(
                    self@.subrange(start as int, end as int),
                ),
                Option::None => last_dot(self@.subrange(start as int, end as int)) == -1,
            },
    {
        let ghost s = self@;
        let ghost name = s.subrange(start as int, end as int);
        let mut dot_abs: usize = 0;
        let mut found = false;
        let mut j: usize = start;
        proof {
            assert(name.take(0) =~= Seq::<u8>::empty());
        }
        while j < end
            invariant
                start <= j <= end <= s.len(),
                s == self@,
                name == s.subrange(start as int, end as int),
                found ==> start <= dot_abs < j && dot_abs - start == last_dot(
                    name.take(j - start),
                ),
                !found ==> last_dot(name.take(j - start)) == -1,
            decreases end - j,
        {
            proof {
                assert(name.take(j - start + 1).drop_last() =~= name.take(j - start));
                assert(name.take(j - start + 1).last() == s[j as int]);
            }
            if self.bytes[j] == 46 {
                dot_abs = j;
                found = true;
            }
            j = j + 1;
        }
        proof {
            assert(name.take(end - start) =~= name);
        }
        if found {
            Option::Some(dot_abs)
        } else {
            Option::None
        }
    }

    /// Whether the final component, the byte range `start .. end`, is a
    /// dot-only one.
    fn component_is_dot_only(&self, start: usize, end: usize) -> (r: bool)
        requires
            start < end <= self@.len(),
        ensures
            r == dot_only(self@.subrange(start as int, end as int)),
    {
        let ghost name = self@.subrange(start as int, end as int);
        let len = end - start;
        let r = (len == 1 && self.bytes[start] == 46) || (len == 2 && self.bytes[start] == 46
            && self.bytes[start + 1] == 46);
        proof {
            if r {
                if len == 1 {
                    assert(name =~= seq![46u8]);
                } else {
                    assert(name =~= seq![46u8, 46u8]);
                }
            } else {
                assert(name.len() == end - start);
                if name == seq![46u8] {
                    assert(name.len() == 1);
                    assert(name[0] == seq![46u8][0]);
                    assert(seq![46u8][0] == 46u8);
                    assert(name[0] == self@[start as int]);
                    assert(false);
                }
                if name == seq![46u8, 46u8] {
                    assert(name.len() == 2);
                    assert(name[0] == seq![46u8, 46u8][0]);
                    assert(name[1] == seq![46u8, 46u8][1]);
                    assert(seq![46u8, 46u8][0] == 46u8 && seq![46u8, 46u8][1] == 46u8);
                    assert(name[0] == self@[start as int]);
                    assert(name[1] == self@[start + 1]);
                    assert(false);
                }
            }
        }
        r
    }

    /// The name shown for this track: the stem of the identifier's file
    /// name (see `display_name_of`).
    pub fn display_name(&self) -> (r: Vec<u8>)
        ensures
            r@ == display_name_of(self@),
    {
        let ghost s = self@;
        let e = self.strip_end();
        let start = self.find_name_start(e);
        proof {
            assert(file_name_of(s) =~= s.subrange(start as int, e as int));
        }
        if start == e {
            return unknown_text();
        }
        if self.component_is_dot_only(start, e) {
            return unknown_text();
        }
        let ghost name = s.subrange(start as int, e as int);
        let dot = self.find_last_dot(start, e);
        let stop = match dot {
            Option::Some(d) => if d > start {
                d
            } else {
                e
            },
            Option::None => e,
        };
        let mut out: Vec<u8> = Vec::new();
        let mut k: usize = start;
        while k < stop
            invariant
                start <= k <= stop <= self@.len(),
                out@ == self@.subrange(start as int, k as int),
            decreases stop - k,
        {
            out.push(self.bytes[k]);
            proof {
                assert(out@ =~= self@.subrange(start as int, k + 1));
            }
            k = k + 1;
        }
        proof {
            if last_dot(name) > 0 {
                assert(out@ =~= name.take(last_dot(name)));
            } else {
                assert(out@ =~= name);
            }
        }
        out
    }

    /// Whether this track names an audio file the player accepts (see
    /// `is_audio_name`).
    pub fn is_audio_file(&self) -> (r: bool)
        ensures
            r == is_audio_name(self@),
    {
        let ghost s = self@;
        let e = self.strip_end();
        let start = self.find_name_start(e);
        proof {
            assert(file_name_of(s) =~= s.subrange(start as int, e as int));
        }
        if start == e {
            proof {
                assert(s.subrange(start as int, e as int) =~= Seq::<u8>::empty());
            }
            return false;
        }
        if self.component_is_dot_only(start, e) {
            return false;
        }
        let ghost name = s.subrange(start as int, e as int);
        let d = match self.find_last_dot(start, e) {
            Option::Some(d) => d,
            Option::None => {
                return false;
            },
        };
        if d == start {
            return false;
        }
        let ghost ld = last_dot(name);
        let mut ext: Vec<u8> = Vec::new();
        let mut k: usize = d + 1;
        while k < e
            invariant
                d + 1 <= k <= e <= s.len(),
                s == self@,
                ext@.len() == k - (d + 1),
                forall|m: int| 0 <= m < ext@.len() ==> ext@[m] == lower(s[d + 1 + m]),
            decreases e - k,
        {
            let c = self.bytes[k];
            let lc = if c >= 65 && c <= 90 {
                c + 32
            } else {
                c
            };
            ext.push(lc);
            k = k + 1;
        }
        proof {
            assert(ext@ =~= name.skip(ld + 1).map_values(|c: u8| lower(c)));
        }
        let hit = (ext.len() == 3 && ext[0] == 109 && ext[1] == 112 && ext[2] == 51) || (ext.len()
            == 3 && ext[0] == 119 && ext[1] == 97 && ext[2] == 118) || (ext.len() == 3 && ext[0]
            == 111 && ext[1] == 103 && ext[2] == 103) || (ext.len() == 4 && ext[0] == 102 && ext[1]
            == 108 && ext[2] == 97 && ext[3] == 99);
        proof {
            if hit {
                if ext@.len() == 3 && ext@[0] == 109 && ext@[1] == 112 && ext@[2] == 51 {
                    assert(ext@ =~= seq![109u8, 112u8, 51u8]);
                } else if ext@.len() == 3 && ext@[0] == 119 && ext@[1] == 97 && ext@[2] == 118 {
                    assert(ext@ =~= seq![119u8, 97u8, 118u8]);
                } else if ext@.len() == 3 && ext@[0] == 111 && ext@[1] == 103 && ext@[2] == 103 {
                    assert(ext@ =~= seq![111u8, 103u8, 103u8]);
                } else {
                    assert(ext@ =~= seq![102u8, 108u8, 97u8, 99u8]);
                }
            }
        }
        hit
    }

    /// Whether two identifiers name the same resource: byte equality.
    pub fn same_as(&self, other: &TrackId) -> (r: bool)
        ensures
            r == (self@ == other@),
    {
        if self.bytes.len() != other.bytes.len() {
            proof {
                assert(self@.len() != other@.len());
            }
            return false;
        }
        let mut i: usize = 0;
        while i < self.bytes.len()
            invariant
                i <= self.bytes.len(),
                self.bytes.len() == other.bytes.len(),
                forall|j: int| 0 <= j < i ==> self.bytes@[j] == other.bytes@[j],
            decreases self.bytes.len() - i,
        {
            if self.bytes[i] != other.bytes[i] {
                return false;
            }
            i = i + 1;
        }
        proof {
            assert(self@ =~= other@);
        }
        true
    }
}

} // verus!
