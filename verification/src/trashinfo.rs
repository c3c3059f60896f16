//! The `.trashinfo` file: reading and writing its three lines.
//!
//! A file reads
//! ```text
//! [Trash Info]
//! Path=<percent-encoded original path>
//! DeletionDate=<date and time>
//! ```
use crate::bytes::{append_bytes, range_texts, ranges_within, find, find_byte, lemma_find, lemma_find_is, range_equals};
use crate::datetime::{
    chrono_format_deletion_date, chrono_from_compact, chrono_from_rfc2822, chrono_from_rfc3339,
    chrono_from_str, deletion_date_text, fields_valid, free_of_line_syntax,
    lemma_deletion_date_text_plain, naive_datetime_from_compact, naive_datetime_from_rfc2822,
    naive_datetime_from_rfc3339, naive_datetime_from_str, LocalDateTime,
};
use crate::error::Error;
use crate::urlenc::{
    lemma_decode_encode, lemma_encoded_bytes, percent_decoded, percent_encoded, url_decode,
    url_encode,
};
use vstd::prelude::*;
use vstd::string::StringSliceAdditionalSpecFns;

verus! {

/// The key of the original path.
pub const PATH_KEY: &'static str = "Path";

/// The key of the deletion date.
pub const DELDATE_KEY: &'static str = "DeletionDate";

/// The fields of a date and time: year, month, day, hour, minute, second,
/// nanosecond.
pub type DateFields = (i32, u32, u32, u32, u32, u32, u32);

/// `[Trash Info]`
pub open spec fn header_line() -> Seq<u8> {
    seq![91u8, 84u8, 114u8, 97u8, 115u8, 104u8, 32u8, 73u8, 110u8, 102u8, 111u8, 93u8]
}

/// `Path`
pub open spec fn path_key() -> Seq<u8> {
    seq![80u8, 97u8, 116u8, 104u8]
}

/// `DeletionDate`
pub open spec fn deletion_date_key() -> Seq<u8> {
    seq![68u8, 101u8, 108u8, 101u8, 116u8, 105u8, 111u8, 110u8, 68u8, 97u8, 116u8, 101u8]
}

/// A line without the carriage return that ends it, if any.
pub open spec fn strip_cr(l: Seq<u8>) -> Seq<u8> {
    if l.len() > 0 && l.last() == 13u8 {
        l.drop_last()
    } else {
        l
    }
}

/// The lines of a text as `str::lines` gives them: split at `\n`, a `\r`
/// before the `\n` dropped, and no empty line after a final `\n`.
pub open spec fn text_lines(s: Seq<u8>) -> Seq<Seq<u8>>
    decreases s.len(),
{
    if s.len() == 0 {
        seq![]
    } else {
        let i = find(s, 10u8);
        if i < s.len() {
            proof {
                lemma_find(s, 10u8);
            }
            seq![strip_cr(s.take(i))] + text_lines(s.skip(i + 1))
        } else {
            seq![s]
        }
    }
}

/// A `key=value` line: the text before the first `=`, and the text between
/// it and the next `=` (or the end). A line without `=` is no such line.
pub open spec fn key_value_line(l: Seq<u8>) -> Option<(Seq<u8>, Seq<u8>)> {
    let i = find(l, 61u8);
    if i < l.len() {
        let rest = l.skip(i + 1);
        Some((l.take(i), rest.take(find(rest, 61u8))))
    } else {
        None
    }
}

/// The key/value pairs of the lines, in order, if every line is one.
pub open spec fn key_values(ls: Seq<Seq<u8>>) -> Option<Seq<(Seq<u8>, Seq<u8>)>>
    decreases ls.len(),
{
    if ls.len() == 0 {
        Some(seq![])
    } else {
        match (key_values(ls.drop_last()), key_value_line(ls.last())) {
            (Some(kv), Some(p)) => Some(kv.push(p)),
            _ => None,
        }
    }
}

/// The value of the last pair with the key: a later line overrides an
/// earlier one.
pub open spec fn lookup(kvs: Seq<(Seq<u8>, Seq<u8>)>, key: Seq<u8>) -> Option<Seq<u8>>
    decreases kvs.len(),
{
    if kvs.len() == 0 {
        None
    } else if kvs.last().0 == key {
        Some(kvs.last().1)
    } else {
        lookup(kvs.drop_last(), key)
    }
}

/// The first of the four date parsers, in order, that reads the text: the
/// ISO form `%Y-%m-%dT%H:%M:%S%.f`, RFC 3339, `%Y%m%dT%H:%M:%S`, RFC 2822.
pub open spec fn first_parsed_date(text: Seq<u8>) -> Option<DateFields> {
    if naive_datetime_from_str(text) is Some {
        naive_datetime_from_str(text)
    } else if naive_datetime_from_rfc3339(text) is Some {
        naive_datetime_from_rfc3339(text)
    } else if naive_datetime_from_compact(text) is Some {
        naive_datetime_from_compact(text)
    } else {
        naive_datetime_from_rfc2822(text)
    }
}

/// Why a text is no `.trashinfo` file.
#[derive(Debug, Clone, Copy, PartialEq, Eq)]
pub enum TrashInfoFailure {
    /// The first line is not `[Trash Info]`.
    FirstLine,
    /// A later line is not `key=value`.
    KeyValues,
    /// No `Path` key.
    MissingPath,
    /// No `DeletionDate` key.
    MissingDeletionDate,
    /// No date parser reads the deletion date.
    NoDateTimeParser,
}

/// What a text reads as: the decoded original path and the deletion date's
/// fields, or why it is no `.trashinfo` file (the first reason, in the order
/// of the variants of `TrashInfoFailure`).
pub open spec fn read_trashinfo(s: Seq<u8>) -> Result<
    (Seq<u8>, DateFields),
    TrashInfoFailure,
> {
    let ls = text_lines(s);
    if ls.len() == 0 || ls[0] != header_line() {
        Err(TrashInfoFailure::FirstLine)
    } else {
        match key_values(ls.drop_first()) {
            None => Err(TrashInfoFailure::KeyValues),
            Some(kvs) => match lookup(kvs, path_key()) {
                None => Err(TrashInfoFailure::MissingPath),
                Some(p) => match lookup(kvs, deletion_date_key()) {
                    None => Err(TrashInfoFailure::MissingDeletionDate),
                    Some(d) => match first_parsed_date(d) {
                        None => Err(TrashInfoFailure::NoDateTimeParser),
                        Some(f) => Ok((percent_decoded(p), f)),
                    },
                },
            },
        }
    }
}

/// Why the text is no `.trashinfo` file, if it is none.
pub open spec fn failure_of(s: Seq<u8>) -> Option<TrashInfoFailure> {
    match read_trashinfo(s) {
        Ok(_) => None,
        Err(k) => Some(k),
    }
}

/// The error reports the failure.
pub open spec fn reports_failure(e: Error, k: TrashInfoFailure) -> bool {
    match k {
        TrashInfoFailure::FirstLine => e is InvalidFirstLine,
        TrashInfoFailure::KeyValues => e is InvalidKeyValues,
        TrashInfoFailure::MissingPath => e matches Error::MissingKey(key) && key == PATH_KEY,
        TrashInfoFailure::MissingDeletionDate => e matches Error::MissingKey(key) && key
            == DELDATE_KEY,
        TrashInfoFailure::NoDateTimeParser => e matches Error::InvalidDateTimeNoParserMatched {
            errors,
        } && errors@.len() == 4,
    }
}

/// The text written for an original path and a deletion date.
pub open spec fn trashinfo_text(path: Seq<u8>, f: DateFields) -> Seq<
    u8,
> {
    header_line() + seq![10u8] + path_key() + seq![61u8] + percent_encoded(path) + seq![10u8]
        + deletion_date_key() + seq![61u8] + deletion_date_text(f)
}

/// The contents of a `.trashinfo` file. Relative paths are left for the
/// caller to resolve.
#[derive(Debug, Clone, PartialEq, Eq, Hash)]
pub struct TrashInfo {
    /// The original path, as the bytes of the operating system's path.
    pub path: Vec<u8>,
    /// When the file was trashed.
    pub deleted_at: LocalDateTime,
}

/// The byte ranges of the lines of `s`, as `text_lines` gives them.
pub fn split_lines(s: &[u8]) -> (r: Vec<(usize, usize)>)
    ensures
        ranges_within(s@, r@),
        range_texts(s@, r@) == text_lines(s@),
{
    let n = s.len();
    let mut out: Vec<(usize, usize)> = Vec::new();
    let mut pos: usize = 0;
    assert(s@.skip(0) =~= s@);
    while pos < n
        invariant
            n == s@.len(),
            pos <= n,
            ranges_within(s@, out@),
            range_texts(s@, out@) + text_lines(s@.skip(pos as int)) == text_lines(s@),
        decreases n - pos,
    {
        let i = find_byte(s, pos, n, 10u8);
        let ghost rest = s@.skip(pos as int);
        assert(s@.subrange(pos as int, n as int) =~= rest);
        proof {
            lemma_find(rest, 10u8);
        }
        let ghost old_out = out@;
        if i < n {
            let e = if i > pos && s[i - 1] == 13u8 {
                i - 1
            } else {
                i
            };
            out.push((pos, e));
            proof {
                let line = rest.take(i - pos);
                assert(strip_cr(line) =~= s@.subrange(pos as int, e as int));
                assert(rest.skip(i - pos + 1) =~= s@.skip(i + 1));
                assert(text_lines(rest) == seq![strip_cr(line)] + text_lines(s@.skip(i + 1)));
                assert(range_texts(s@, out@) =~= range_texts(s@, old_out).push(
                    s@.subrange(pos as int, e as int),
                ));
                assert(range_texts(s@, out@) + text_lines(s@.skip(i + 1)) =~= range_texts(
                    s@,
                    old_out,
                ) + text_lines(rest));
            }
            pos = i + 1;
        } else {
            out.push((pos, n));
            proof {
                assert(text_lines(rest) == seq![rest]);
                assert(s@.subrange(pos as int, n as int) =~= rest);
                assert(range_texts(s@, out@) =~= range_texts(s@, old_out).push(rest));
                assert(s@.skip(n as int) =~= Seq::<u8>::empty());
                assert(text_lines(s@.skip(n as int)) =~= Seq::<Seq<u8>>::empty());
                assert(range_texts(s@, out@) + text_lines(s@.skip(n as int)) =~= range_texts(
                    s@,
                    old_out,
                ) + text_lines(rest));
            }
            pos = n;
        }
    }
    proof {
        assert(s@.skip(n as int) =~= Seq::<u8>::empty());
        assert(text_lines(s@.skip(n as int)) =~= Seq::<Seq<u8>>::empty());
        assert(range_texts(s@, out@) + text_lines(s@.skip(n as int)) =~= range_texts(s@, out@));
    }
    out
}

/// The key and value texts of pairs of byte ranges.
pub open spec fn pair_texts(s: Seq<u8>, kvs: Seq<(usize, usize, usize, usize)>) -> Seq<
    (Seq<u8>, Seq<u8>),
> {
    kvs.map_values(
        |q: (usize, usize, usize, usize)|
            (s.subrange(q.0 as int, q.1 as int), s.subrange(q.2 as int, q.3 as int)),
    )
}

/// The pair ranges lie inside the text.
pub open spec fn pairs_within(s: Seq<u8>, kvs: Seq<(usize, usize, usize, usize)>) -> bool {
    forall|k: int|
        0 <= k < kvs.len() ==> #[trigger] kvs[k].0 <= kvs[k].1 <= s.len() && kvs[k].2 <= kvs[k].3
            <= s.len()
}

/// Once a line is no pair, the lines have no pairs.
proof fn lemma_key_values_prefix(ls: Seq<Seq<u8>>, m: int)
    requires
        0 <= m <= ls.len(),
        key_values(ls.take(m)) is None,
    ensures
        key_values(ls) is None,
    decreases ls.len() - m,
{
    if m < ls.len() {
        assert(ls.take(m + 1).drop_last() =~= ls.take(m));
        lemma_key_values_prefix(ls, m + 1);
    } else {
        assert(ls.take(m) =~= ls);
    }
}

proof fn lemma_lookup_skip_last(kvs: Seq<(Seq<u8>, Seq<u8>)>, key: Seq<u8>, k: int)
    requires
        0 <= k < kvs.len(),
        kvs[k].0 != key,
    ensures
        lookup(kvs.take(k + 1), key) == lookup(kvs.take(k), key),
{
    assert(kvs.take(k + 1).drop_last() =~= kvs.take(k));
}

/// The value range of the last pair whose key is `key`.
fn lookup_range(s: &[u8], kvs: &Vec<(usize, usize, usize, usize)>, key: &[u8]) -> (r: Option<
    (usize, usize),
>)
    requires
        pairs_within(s@, kvs@),
    ensures
        match r {
            Some((a, b)) => a <= b <= s@.len() && lookup(pair_texts(s@, kvs@), key@) == Some(
                s@.subrange(a as int, b as int),
            ),
            None => lookup(pair_texts(s@, kvs@), key@) is None,
        },
{
    let ghost pt = pair_texts(s@, kvs@);
    let mut k = kvs.len();
    assert(pt.take(k as int) =~= pt);
    while k > 0
        invariant
            k <= kvs@.len(),
            pt == pair_texts(s@, kvs@),
            pairs_within(s@, kvs@),
            lookup(pt, key@) == lookup(pt.take(k as int), key@),
        decreases k,
    {
        let q = kvs[k - 1];
        if range_equals(s, q.0, q.1, key) {
            assert(pt.take(k as int).last() == pt[k - 1]);
            return Some((q.2, q.3));
        }
        proof {
            lemma_lookup_skip_last(pt, key@, k - 1);
        }
        k = k - 1;
    }
    None
}

/// Tries the four date parsers in order and gives the first date read, or
/// the four errors.
pub fn try_different_parsers(input: &[u8]) -> (r: core::result::Result<
    LocalDateTime,
    Vec<chrono::ParseError>,
>)
    ensures
        match r {
            Ok(dt) => first_parsed_date(input@) == Some(dt.fields()),
            Err(errs) => first_parsed_date(input@) is None && errs@.len() == 4,
        },
{
    let mut errs: Vec<chrono::ParseError> = Vec::new();
    match chrono_from_str(input) {
        Ok(f) => {
            return Ok(LocalDateTime::from_fields(f));
        },
        Err(e) => errs.push(e),
    }
    match chrono_from_rfc3339(input) {
        Ok(f) => {
            return Ok(LocalDateTime::from_fields(f));
        },
        Err(e) => errs.push(e),
    }
    match chrono_from_compact(input) {
        Ok(f) => {
            return Ok(LocalDateTime::from_fields(f));
        },
        Err(e) => errs.push(e),
    }
    match chrono_from_rfc2822(input) {
        Ok(f) => {
            return Ok(LocalDateTime::from_fields(f));
        },
        Err(e) => errs.push(e),
    }
    Err(errs)
}

/// What reading a written file gives: the original path exactly, and the
/// deletion date as the date parsers read its written text.
pub open spec fn reading_of_written(path: Seq<u8>, f: DateFields) -> core::result::Result<
    (Seq<u8>, DateFields),
    TrashInfoFailure,
> {
    match first_parsed_date(deletion_date_text(f)) {
        Some(g) => Ok((path, g)),
        None => Err(TrashInfoFailure::NoDateTimeParser),
    }
}

proof fn lemma_lines_of_last(d: Seq<u8>)
    requires
        d.len() > 0,
        forall|i: int| 0 <= i < d.len() ==> d[i] != 10u8,
    ensures
        text_lines(d) == seq![d],
{
    lemma_find_is(d, 10u8, d.len() as int);
}

proof fn lemma_lines_step(l: Seq<u8>, rest: Seq<u8>)
    requires
        forall|i: int| 0 <= i < l.len() ==> l[i] != 10u8,
        l.len() > 0 && l.last() != 13u8,
    ensures
        text_lines(l + seq![10u8] + rest) == seq![l] + text_lines(rest),
{
    let t = l + seq![10u8] + rest;
    assert forall|i: int| 0 <= i < l.len() implies t[i] != 10u8 by {
        assert(t[i] == l[i]);
    }
    lemma_find_is(t, 10u8, l.len() as int);
    assert(t.take(l.len() as int) =~= l);
    assert(t.skip(l.len() as int + 1) =~= rest);
}

proof fn lemma_key_value_of(key: Seq<u8>, value: Seq<u8>)
    requires
        forall|i: int| 0 <= i < key.len() ==> key[i] != 61u8,
        forall|i: int| 0 <= i < value.len() ==> value[i] != 61u8,
    ensures
        key_value_line(key + seq![61u8] + value) == Some((key, value)),
{
    let l = key + seq![61u8] + value;
    assert forall|i: int| 0 <= i < key.len() implies l[i] != 61u8 by {
        assert(l[i] == key[i]);
    }
    lemma_find_is(l, 61u8, key.len() as int);
    let rest = l.skip(key.len() as int + 1);
    assert(rest =~= value);
    lemma_find_is(value, 61u8, value.len() as int);
    assert(l.take(key.len() as int) =~= key);
    assert(value.take(value.len() as int) =~= value);
}

/// Reading the text written for a path and a date gives back the path
/// exactly, and the date as the date parsers read its written text.
pub proof fn lemma_read_written(path: Seq<u8>, f: DateFields)
    requires
        fields_valid(f),
    ensures
        read_trashinfo(trashinfo_text(path, f)) == reading_of_written(path, f),
{
    let h = header_line();
    let enc = percent_encoded(path);
    let dt = deletion_date_text(f);
    let p = path_key() + seq![61u8] + enc;
    let d = deletion_date_key() + seq![61u8] + dt;
    let t = trashinfo_text(path, f);
    assert(t =~= h + seq![10u8] + (p + seq![10u8] + d));
    lemma_encoded_bytes(path);
    lemma_deletion_date_text_plain(f);
    assert(free_of_line_syntax(dt));
    assert forall|i: int| 0 <= i < p.len() implies p[i] != 10u8 && p[i] != 13u8 by {
        if i >= 5 {
            assert(p[i] == enc[i - 5]);
        }
    }
    assert forall|i: int| 0 <= i < d.len() implies d[i] != 10u8 by {
        if i >= 13 {
            assert(d[i] == dt[i - 13]);
        }
    }
    lemma_lines_of_last(d);
    lemma_lines_step(p, d);
    lemma_lines_step(h, p + seq![10u8] + d);
    let ls = text_lines(t);
    assert(ls =~= seq![h, p, d]);
    assert(ls.drop_first() =~= seq![p, d]);
    assert(forall|i: int| 0 <= i < enc.len() ==> enc[i] != 61u8);
    assert(forall|i: int| 0 <= i < dt.len() ==> #[trigger] dt[i] != 61u8);
    lemma_key_value_of(path_key(), enc);
    lemma_key_value_of(deletion_date_key(), dt);
    let body = seq![p, d];
    assert(body.drop_last() =~= seq![p]);
    assert(seq![p].drop_last() =~= Seq::<Seq<u8>>::empty());
    let kvs = seq![(path_key(), enc), (deletion_date_key(), dt)];
    assert(key_values(body) == Some(kvs)) by {
        assert(key_values(seq![p]) == Some(seq![(path_key(), enc)])) by {
            assert(key_values(Seq::<Seq<u8>>::empty()) == Some(
                Seq::<(Seq<u8>, Seq<u8>)>::empty(),
            ));
            assert(seq![p].last() == p);
            assert(Seq::<(Seq<u8>, Seq<u8>)>::empty().push((path_key(), enc)) =~= seq![
                (path_key(), enc),
            ]);
        }
        assert(seq![(path_key(), enc)].push((deletion_date_key(), dt)) =~= kvs);
    }
    assert(kvs.drop_last() =~= seq![(path_key(), enc)]);
    assert(path_key() != deletion_date_key()) by {
        assert(path_key().len() != deletion_date_key().len());
    }
    assert(lookup(seq![(path_key(), enc)], path_key()) == Some(enc));
    assert(lookup(kvs, path_key()) == Some(enc));
    assert(lookup(kvs, deletion_date_key()) == Some(dt));
    lemma_decode_encode(path);
}

impl TrashInfo {
    /// The text of the `.trashinfo` file for this entry. The date is written
    /// as `%Y-%m-%dT%H:%M:%S`, the form common file managers use.
    ///
    /// Reading the text back gives the same path, and the date as the date
    /// parsers read it: the same date and time to the second, where it is no
    /// leap second.
    pub fn create_trashinfofile(&self) -> (r: Vec<u8>)
        ensures
            r@ == trashinfo_text(self.path@, self.deleted_at.fields()),
            read_trashinfo(r@) == reading_of_written(self.path@, self.deleted_at.fields()),
            self.deleted_at.fields().6 < 1_000_000_000 ==> read_trashinfo(r@) == Ok::<
                (Seq<u8>, DateFields),
                TrashInfoFailure,
            >((self.path@, self.deleted_at.whole_seconds())),
    {
        proof {
            use_type_invariant(&self.deleted_at);
        }
        let header: Vec<u8> = vec![91u8, 84u8, 114u8, 97u8, 115u8, 104u8, 32u8, 73u8, 110u8, 102u8, 111u8, 93u8, 10u8];
        let path_eq: Vec<u8> = vec![80u8, 97u8, 116u8, 104u8, 61u8];
        let date_eq: Vec<u8> = vec![10u8, 68u8, 101u8, 108u8, 101u8, 116u8, 105u8, 111u8, 110u8, 68u8, 97u8, 116u8, 101u8, 61u8];
        let mut out: Vec<u8> = Vec::new();
        append_bytes(&mut out, header.as_slice());
        append_bytes(&mut out, path_eq.as_slice());
        let encoded = url_encode(self.path.as_slice());
        append_bytes(&mut out, encoded.as_slice());
        append_bytes(&mut out, date_eq.as_slice());
        let date = chrono_format_deletion_date(&self.deleted_at);
        append_bytes(&mut out, date.as_slice());
        proof {
            assert(out@ =~= trashinfo_text(self.path@, self.deleted_at.fields()));
            lemma_read_written(self.path@, self.deleted_at.fields());
        }
        out
    }

    /// Reads a `.trashinfo` file from its text.
    pub fn parse(text: &[u8]) -> (r: crate::error::Result<TrashInfo>)
        ensures
            r is Ok <==> read_trashinfo(text@) is Ok,
            r matches Ok(info) ==> read_trashinfo(text@) == Ok::<(Seq<u8>, DateFields), TrashInfoFailure>(
                (info.path@, info.deleted_at.fields()),
            ),
            failure_of(text@) matches Some(k) ==> (r matches Err(e) && reports_failure(e, k)),
    {
        let lines = split_lines(text);
        let ghost ls = text_lines(text@);
        let header: Vec<u8> = vec![91u8, 84u8, 114u8, 97u8, 115u8, 104u8, 32u8, 73u8, 110u8, 102u8, 111u8, 93u8];
        if lines.len() == 0 {
            return Err(Error::InvalidFirstLine);
        }
        assert(ls[0] == text@.subrange(lines@[0].0 as int, lines@[0].1 as int));
        if !range_equals(text, lines[0].0, lines[0].1, header.as_slice()) {
            return Err(Error::InvalidFirstLine);
        }
        let ghost body = ls.drop_first();
        let mut kvs: Vec<(usize, usize, usize, usize)> = Vec::new();
        let mut k: usize = 1;
        assert(body.take(0) =~= Seq::<Seq<u8>>::empty());
        while k < lines.len()
            invariant
                1 <= k <= lines@.len(),
                ls == text_lines(text@),
                body == ls.drop_first(),
                ls.len() > 0 && ls[0] == header_line(),
                ranges_within(text@, lines@),
                range_texts(text@, lines@) == ls,
                pairs_within(text@, kvs@),
                key_values(body.take(k - 1)) == Some(pair_texts(text@, kvs@)),
            decreases lines@.len() - k,
        {
            let (a, b) = lines[k];
            let ghost line = text@.subrange(a as int, b as int);
            assert(line == ls[k as int]);
            assert(body[k - 1] == line);
            assert(body.take(k as int).drop_last() =~= body.take(k - 1));
            assert(body.take(k as int).last() == line);
            let e = find_byte(text, a, b, 61u8);
            if e == b {
                proof {
                    lemma_key_values_prefix(body, k as int);
                }
                return Err(Error::InvalidKeyValues);
            }
            let f = find_byte(text, e + 1, b, 61u8);
            proof {
                let rest = line.skip(e - a + 1);
                assert(rest =~= text@.subrange(e + 1, b as int));
                assert(line.take(e - a) =~= text@.subrange(a as int, e as int));
                assert(rest.take(f - (e + 1)) =~= text@.subrange(e + 1, f as int));
            }
            let ghost old_kvs = kvs@;
            kvs.push((a, e, e + 1, f));
            assert(pair_texts(text@, kvs@) =~= pair_texts(text@, old_kvs).push(
                (text@.subrange(a as int, e as int), text@.subrange(e + 1, f as int)),
            ));
            k = k + 1;
        }
        assert(body.take(k - 1) =~= body);
        let path_key: Vec<u8> = vec![80u8, 97u8, 116u8, 104u8];
        let date_key: Vec<u8> = vec![68u8, 101u8, 108u8, 101u8, 116u8, 105u8, 111u8, 110u8, 68u8, 97u8, 116u8, 101u8];
        let (pa, pb) = match lookup_range(text, &kvs, path_key.as_slice()) {
            Some(p) => p,
            None => {
                return Err(Error::MissingKey(PATH_KEY));
            },
        };
        let path = url_decode(&text[pa..pb]);
        let (da, db) = match lookup_range(text, &kvs, date_key.as_slice()) {
            Some(p) => p,
            None => {
                return Err(Error::MissingKey(DELDATE_KEY));
            },
        };
        match try_different_parsers(&text[da..db]) {
            Ok(deleted_at) => Ok(TrashInfo { path, deleted_at }),
            Err(errors) => Err(Error::InvalidDateTimeNoParserMatched { errors }),
        }
    }
}

impl std::str::FromStr for TrashInfo {
    type Err = Error;

    /// Reads a `.trashinfo` file from the UTF-8 bytes of its text, as
    /// `TrashInfo::parse` does.
    fn from_str(s: &str) -> (r: core::result::Result<TrashInfo, Error>)
        ensures
            r is Ok <==> read_trashinfo(s.spec_bytes()) is Ok,
            r matches Ok(info) ==> read_trashinfo(s.spec_bytes()) == Ok::<
                (Seq<u8>, DateFields),
                TrashInfoFailure,
            >((info.path@, info.deleted_at.fields())),
            failure_of(s.spec_bytes()) matches Some(k) ==> (r matches Err(e) && reports_failure(
                e,
                k,
            )),
    {
        TrashInfo::parse(s.as_bytes())
    }
}

} // verus!
