//! Dotted key paths and `KEY=VALUE` entries, parsed from raw string tokens.
//!
//! A key token is split on `.` and the empty segments are dropped; a token
//! that yields no segment at all is malformed. An entry token is split on
//! `=`: the first piece is the key, the second the value, and anything after
//! a second `=` is dropped, exactly as the splitting says.

use vstd::prelude::*;

use crate::errors::EditError;

verus! {

/// Splits a character sequence on a separator character.
///
/// The result always has at least one piece; a separator at the front
/// contributes an empty leading piece, one at the end an empty trailing
/// piece.
pub open spec fn split_on(s: Seq<char>, sep: char) -> Seq<Seq<char>>
    decreases s.len(),
{
    if s.len() == 0 {
        seq![Seq::<char>::empty()]
    } else if s[0] == sep {
        seq![Seq::<char>::empty()] + split_on(s.skip(1), sep)
    } else {
        let rest = split_on(s.skip(1), sep);
        seq![seq![s[0]] + rest[0]] + rest.skip(1)
    }
}

/// Removes the empty pieces from a sequence of pieces.
pub open spec fn drop_empty(pieces: Seq<Seq<char>>) -> Seq<Seq<char>>
    decreases pieces.len(),
{
    if pieces.len() == 0 {
        Seq::<Seq<char>>::empty()
    } else if pieces[0].len() == 0 {
        drop_empty(pieces.skip(1))
    } else {
        seq![pieces[0]] + drop_empty(pieces.skip(1))
    }
}

/// The segments of a dotted key string: split on `.`, empty segments
/// dropped.
pub open spec fn key_segments(s: Seq<char>) -> Seq<Seq<char>> {
    drop_empty(split_on(s, '.'))
}

/// Splitting yields at least one piece.
pub proof fn lemma_split_len(s: Seq<char>, sep: char)
    ensures
        split_on(s, sep).len() >= 1,
    decreases s.len(),
{
    if s.len() == 0 {
    } else if s[0] == sep {
    } else {
        lemma_split_len(s.skip(1), sep);
    }
}

/// Splitting a string that starts with a separator-free prefix: the prefix
/// attaches to the first piece of the split of the remainder.
pub proof fn lemma_split_prefix(seg: Seq<char>, rest: Seq<char>, sep: char)
    requires
        forall|j: int| 0 <= j < seg.len() ==> seg[j] != sep,
    ensures
        split_on(seg + rest, sep) == seq![seg + split_on(rest, sep)[0]] + split_on(
            rest,
            sep,
        ).skip(1),
    decreases seg.len(),
{
    lemma_split_len(rest, sep);
    let r = split_on(rest, sep);
    if seg.len() == 0 {
        assert(seg + rest =~= rest);
        assert(seg + r[0] =~= r[0]);
        assert(r =~~= seq![r[0]] + r.skip(1));
    } else {
        let s = seg + rest;
        assert(s.len() > 0);
        assert(s[0] == seg[0]);
        assert(s[0] != sep);
        assert(s.skip(1) =~= seg.skip(1) + rest);
        assert forall|j: int| 0 <= j < seg.skip(1).len() implies seg.skip(1)[j] != sep by {
            assert(seg.skip(1)[j] == seg[j + 1]);
        }
        lemma_split_prefix(seg.skip(1), rest, sep);
        let q = split_on(s.skip(1), sep);
        assert(q == seq![seg.skip(1) + r[0]] + r.skip(1));
        assert(q[0] == seg.skip(1) + r[0]);
        assert(q.skip(1) =~~= r.skip(1));
        assert(seq![s[0]] + q[0] =~= seg + r[0]);
        assert(split_on(s, sep) == seq![seq![s[0]] + q[0]] + q.skip(1));
        assert(split_on(s, sep) =~~= seq![seg + r[0]] + r.skip(1));
    }
}

/// Splitting a string that holds no separator yields that string as the one
/// piece.
pub proof fn lemma_split_sepfree(s: Seq<char>, sep: char)
    requires
        forall|j: int| 0 <= j < s.len() ==> s[j] != sep,
    ensures
        split_on(s, sep) == seq![s],
{
    let empty = Seq::<char>::empty();
    assert(s + empty =~= s);
    lemma_split_prefix(s, empty, sep);
    assert(split_on(empty, sep) == seq![empty]);
    assert(s + split_on(empty, sep)[0] =~= s);
    assert(split_on(empty, sep).skip(1) =~~= Seq::<Seq<char>>::empty());
    assert(seq![s] + Seq::<Seq<char>>::empty() =~~= seq![s]);
}

/// Dropping empties from a piece list starting with `a`: `a` stays exactly
/// when it is non-empty.
pub proof fn lemma_drop_empty_cons(a: Seq<char>, rest: Seq<Seq<char>>)
    ensures
        drop_empty(seq![a] + rest) == if a.len() == 0 {
            drop_empty(rest)
        } else {
            seq![a] + drop_empty(rest)
        },
{
    let p = seq![a] + rest;
    assert(p.len() > 0);
    assert(p[0] == a);
    assert(p.skip(1) =~~= rest);
}

/// A dotted key path: the parsed segments, each non-empty, beside the raw
/// string the user typed, kept for error messages.
pub struct Key {
    pub segments: Vec<String>,
    pub raw: String,
}

impl Key {
    /// The segments are exactly those of the raw string, and there is at
    /// least one.
    pub open spec fn wf(self) -> bool {
        &&& self.segments.deep_view() == key_segments(self.raw@)
        &&& self.segments.len() >= 1
    }

    /// Parses a raw token as a key path: split on `.`, drop the empty
    /// segments, and reject the token when nothing is left.
    pub fn parse(s: &str) -> (r: Result<Key, EditError>)
        ensures
            key_segments(s@).len() >= 1 ==> (r matches Ok(k) && k.segments.deep_view()
                == key_segments(s@) && k.raw@ == s@ && k.wf()),
            key_segments(s@).len() == 0 ==> r == Err::<Key, EditError>(EditError::MalformedKey),
    {
        let len = s.unicode_len();
        let mut segments: Vec<String> = Vec::new();
        let mut start: usize = 0;
        let mut i: usize = 0;
        proof {
            assert(s@.skip(0) =~= s@);
            assert(segments.deep_view() =~~= Seq::<Seq<char>>::empty());
            assert(segments.deep_view() + drop_empty(split_on(s@, '.')) =~~= key_segments(s@));
        }
        while i < len
            invariant
                s@.len() == len,
                start <= i <= len,
                forall|j: int| start <= j < i ==> s@[j] != '.',
                key_segments(s@) == segments.deep_view() + drop_empty(
                    split_on(s@.skip(start as int), '.'),
                ),
            decreases len - i,
        {
            let c = s.get_char(i);
            if c == '.' {
                let ghost seg = s@.subrange(start as int, i as int);
                let ghost skip_i = s@.skip(i as int);
                let ghost tail = s@.skip(i as int + 1);
                proof {
                    assert(skip_i.len() > 0);
                    assert(skip_i[0] == '.');
                    assert(skip_i.skip(1) =~= tail);
                    assert(split_on(skip_i, '.') == seq![Seq::<char>::empty()] + split_on(
                        tail,
                        '.',
                    ));
                }
                if start < i {
                    let piece = s.substring_char(start, i).to_owned();
                    let ghost dv0 = segments.deep_view();
                    proof {
                        assert(s@.skip(start as int) =~= seg + skip_i);
                        assert forall|j: int| 0 <= j < seg.len() implies seg[j] != '.' by {
                            assert(seg[j] == s@[start + j]);
                        }
                        lemma_split_prefix(seg, skip_i, '.');
                        lemma_split_len(tail, '.');
                        assert(split_on(skip_i, '.')[0] == Seq::<char>::empty());
                        assert(seg + Seq::<char>::empty() =~= seg);
                        assert(split_on(skip_i, '.').skip(1) =~~= split_on(tail, '.'));
                        assert(split_on(s@.skip(start as int), '.') == seq![seg] + split_on(
                            tail,
                            '.',
                        ));
                        lemma_drop_empty_cons(seg, split_on(tail, '.'));
                    }
                    segments.push(piece);
                    proof {
                        assert(segments.deep_view() =~~= dv0 + seq![seg]);
                        assert(dv0 + (seq![seg] + drop_empty(split_on(tail, '.'))) =~~= (dv0
                            + seq![seg]) + drop_empty(split_on(tail, '.')));
                        assert(key_segments(s@) == segments.deep_view() + drop_empty(
                            split_on(tail, '.'),
                        ));
                    }
                } else {
                    proof {
                        assert(s@.skip(start as int) =~= skip_i);
                        lemma_drop_empty_cons(Seq::<char>::empty(), split_on(tail, '.'));
                        assert(key_segments(s@) == segments.deep_view() + drop_empty(
                            split_on(tail, '.'),
                        ));
                    }
                }
                start = i + 1;
            }
            i = i + 1;
        }
        let ghost seg = s@.skip(start as int);
        proof {
            assert forall|j: int| 0 <= j < seg.len() implies seg[j] != '.' by {
                assert(seg[j] == s@[start + j]);
            }
            lemma_split_sepfree(seg, '.');
            lemma_drop_empty_cons(seg, Seq::<Seq<char>>::empty());
            assert(seq![seg] + Seq::<Seq<char>>::empty() =~~= seq![seg]);
            assert(drop_empty(Seq::<Seq<char>>::empty()) == Seq::<Seq<char>>::empty());
        }
        if start < len {
            let piece = s.substring_char(start, len).to_owned();
            let ghost dv0 = segments.deep_view();
            proof {
                assert(piece@ =~= seg);
                assert(seg.len() > 0);
                assert(drop_empty(split_on(seg, '.')) == seq![seg]);
            }
            segments.push(piece);
            proof {
                assert(segments.deep_view() =~~= dv0 + seq![seg]);
                assert(key_segments(s@) == segments.deep_view());
            }
        } else {
            proof {
                assert(seg.len() == 0);
                assert(drop_empty(split_on(seg, '.')) == Seq::<Seq<char>>::empty());
                assert(segments.deep_view() + Seq::<Seq<char>>::empty() =~~= segments.deep_view());
                assert(key_segments(s@) == segments.deep_view());
            }
        }
        proof {
            assert(segments.deep_view().len() == segments.len());
        }
        if segments.len() == 0 {
            Err(EditError::MalformedKey)
        } else {
            Ok(Key { segments, raw: s.to_owned() })
        }
    }
}

/// An assignment: a key path and the string value to set there.
pub struct Entry {
    pub key: Key,
    pub value: String,
}

impl Entry {
    pub open spec fn wf(self) -> bool {
        self.key.wf()
    }

    /// Parses a raw token as an entry: split on `=`; the first piece is
    /// parsed as a key path (its failure propagates, before anything else
    /// is looked at), the second piece is the value, and any later piece
    /// is dropped. A token with a well-formed key but no `=` at all is
    /// malformed as an entry.
    pub fn parse(s: &str) -> (r: Result<Entry, EditError>)
        ensures
            ({
                let pieces = split_on(s@, '=');
                &&& key_segments(pieces[0]).len() == 0 ==> r == Err::<Entry, EditError>(
                    EditError::MalformedKey,
                )
                &&& pieces.len() == 1 && key_segments(pieces[0]).len() >= 1 ==> r == Err::<
                    Entry,
                    EditError,
                >(EditError::MalformedEntry)
                &&& pieces.len() >= 2 && key_segments(pieces[0]).len() >= 1 ==> (r matches Ok(e)
                    && e.key.segments.deep_view() == key_segments(pieces[0]) && e.key.raw@
                    == pieces[0] && e.value@ == pieces[1] && e.wf())
            }),
    {
        let len = s.unicode_len();
        let mut j: usize = 0;
        while j < len && s.get_char(j) != '='
            invariant
                s@.len() == len,
                j <= len,
                forall|t: int| 0 <= t < j ==> s@[t] != '=',
            decreases len - j,
        {
            j = j + 1;
        }
        let ghost key_part = s@.subrange(0, j as int);
        let ghost tail = s@.skip(j as int + 1);
        proof {
            if j == len {
                assert(key_part =~= s@);
                lemma_split_sepfree(s@, '=');
                assert(split_on(s@, '=')[0] == s@);
            } else {
                let skip_j = s@.skip(j as int);
                assert(s@ =~= key_part + skip_j);
                assert(skip_j.len() > 0);
                assert(skip_j[0] == '=');
                assert(skip_j.skip(1) =~= tail);
                assert(split_on(skip_j, '=') == seq![Seq::<char>::empty()] + split_on(tail, '='));
                assert forall|t: int| 0 <= t < key_part.len() implies key_part[t] != '=' by {
                    assert(key_part[t] == s@[t]);
                }
                lemma_split_prefix(key_part, skip_j, '=');
                lemma_split_len(tail, '=');
                assert(split_on(skip_j, '=')[0] == Seq::<char>::empty());
                assert(key_part + Seq::<char>::empty() =~= key_part);
                assert(split_on(skip_j, '=').skip(1) =~~= split_on(tail, '='));
                assert(split_on(s@, '=') == seq![key_part] + split_on(tail, '='));
                assert(split_on(s@, '=')[0] == key_part);
                assert(split_on(s@, '=')[1] == split_on(tail, '=')[0]);
            }
        }
        let key_str = s.substring_char(0, j);
        let key = match Key::parse(key_str) {
            Ok(k) => k,
            Err(e) => {
                return Err(e);
            },
        };
        if j == len {
            return Err(EditError::MalformedEntry);
        }
        let mut k: usize = j + 1;
        while k < len && s.get_char(k) != '='
            invariant
                s@.len() == len,
                j < len,
                j + 1 <= k <= len,
                forall|t: int| j + 1 <= t < k ==> s@[t] != '=',
            decreases len - k,
        {
            k = k + 1;
        }
        let value_str = s.substring_char(j + 1, k);
        proof {
            let val = s@.subrange(j as int + 1, k as int);
            assert forall|t: int| 0 <= t < val.len() implies val[t] != '=' by {
                assert(val[t] == s@[j + 1 + t]);
            }
            if k == len {
                assert(tail =~= val);
                lemma_split_sepfree(val, '=');
            } else {
                let rest = s@.skip(k as int);
                assert(tail =~= val + rest);
                assert(rest.len() > 0);
                assert(rest[0] == '=');
                assert(rest.skip(1) =~= s@.skip(k as int + 1));
                lemma_split_prefix(val, rest, '=');
                lemma_split_len(rest, '=');
                assert(split_on(rest, '=') == seq![Seq::<char>::empty()] + split_on(
                    s@.skip(k as int + 1),
                    '=',
                ));
                assert(split_on(rest, '=')[0] == Seq::<char>::empty());
                assert(val + Seq::<char>::empty() =~= val);
                assert(split_on(tail, '=')[0] == val);
            }
            assert(split_on(s@, '=')[1] == val);
        }
        Ok(Entry { key, value: value_str.to_owned() })
    }
}

} // verus!
