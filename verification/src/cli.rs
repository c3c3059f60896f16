//! The decisions of the command-line tool: short ids of trashed files,
//! finding files by id or path, reading answers, and the layout of tables.
use crate::bytes::copy_range;
use crate::datetime::LocalDateTime;
use crate::path::{paths_equal, same_path};
use crate::trash_file::TrashFile;
use sha2::Digest;
use vstd::prelude::*;

verus! {

/// The number of hexadecimal digits of an id.
pub const ID_LEN: usize = 10;

/// The SHA-256 digest of the data.
pub uninterp spec fn sha256(data: Seq<u8>) -> Seq<u8>;

/// Computes the SHA-256 digest with the `sha2` crate. Claimed: the digest
/// is the one named `sha256` of the data, and is 32 bytes long.
#[verifier::external_body]
fn sha256_digest(data: &[u8]) -> (r: Vec<u8>)
    ensures
        r@ == sha256(data@),
        r@.len() == 32,
{
    sha2::Sha256::digest(data).to_vec()
}

/// The lower-case hexadecimal digit for `d` (below 16).
pub open spec fn hex_lower(d: int) -> u8 {
    if d < 10 {
        (48 + d) as u8
    } else {
        (87 + d) as u8
    }
}

/// The bytes in lower-case hexadecimal, two digits each.
pub open spec fn hex_text(s: Seq<u8>) -> Seq<u8>
    decreases s.len(),
{
    if s.len() == 0 {
        seq![]
    } else {
        hex_text(s.drop_last()) + seq![hex_lower((s.last() / 16) as int), hex_lower((s.last() % 16) as int)]
    }
}

/// The id of a trashed file: the first ten hexadecimal digits of the
/// SHA-256 digest of its original path.
pub open spec fn spec_file_id(path: Seq<u8>) -> Seq<u8> {
    hex_text(sha256(path)).take(ID_LEN as int)
}

/// The bytes in lower-case hexadecimal.
pub fn encode_hex(bytes: &[u8]) -> (r: Vec<u8>)
    ensures
        r@ == hex_text(bytes@),
{
    let mut out: Vec<u8> = Vec::new();
    let mut i: usize = 0;
    assert(bytes@.take(0) =~= Seq::<u8>::empty());
    while i < bytes.len()
        invariant
            i <= bytes@.len(),
            out@ == hex_text(bytes@.take(i as int)),
        decreases bytes@.len() - i,
    {
        let b = bytes[i];
        let hi = b / 16;
        let lo = b % 16;
        out.push(if hi < 10 {
            48 + hi
        } else {
            87 + hi
        });
        out.push(if lo < 10 {
            48 + lo
        } else {
            87 + lo
        });
        assert(bytes@.take(i + 1).drop_last() =~= bytes@.take(i as int));
        assert(bytes@.take(i + 1).last() == b);
        assert(out@ =~= hex_text(bytes@.take(i + 1)));
        i = i + 1;
    }
    assert(bytes@.take(i as int) =~= bytes@);
    out
}

/// The id of the file at `path`: ten hexadecimal digits that tell trashed
/// files apart even where their names hold bytes that cannot be printed.
pub fn file_id(path: &[u8]) -> (r: Vec<u8>)
    ensures
        r@ == spec_file_id(path@),
{
    let digest = sha256_digest(path);
    let hex = encode_hex(digest.as_slice());
    proof {
        lemma_hex_len(digest@);
    }
    copy_range(hex.as_slice(), 0, ID_LEN)
}

proof fn lemma_hex_len(s: Seq<u8>)
    ensures
        hex_text(s).len() == 2 * s.len(),
    decreases s.len(),
{
    if s.len() > 0 {
        lemma_hex_len(s.drop_last());
    }
}

impl TrashFile {
    /// The id of this trashed file, made from its original path.
    pub fn id(&self) -> (r: Vec<u8>)
        ensures
            r@ == spec_file_id(self.spec_original_path()),
    {
        let p = self.original_path();
        file_id(p.as_slice())
    }

    /// Whether the argument names this file: it is the file's id or the
    /// same path as its original path.
    pub fn matches_id_or_path(&self, id_or_path: &[u8]) -> (r: bool)
        ensures
            r == (spec_file_id(self.spec_original_path()) == id_or_path@ || same_path(
                self.spec_original_path(),
                id_or_path@,
            )),
    {
        let id = self.id();
        if crate::bytes::range_equals(id.as_slice(), 0, id.len(), id_or_path) {
            assert(id@.subrange(0, id@.len() as int) =~= id@);
            return true;
        }
        assert(id@.subrange(0, id@.len() as int) =~= id@);
        let p = self.original_path();
        paths_equal(p.as_slice(), id_or_path)
    }
}

/// The files the argument names, in their order.
pub open spec fn named_by(files: Seq<TrashFile>, id_or_path: Seq<u8>) -> Seq<TrashFile>
    decreases files.len(),
{
    if files.len() == 0 {
        seq![]
    } else {
        let f = files.last();
        let rest = named_by(files.drop_last(), id_or_path);
        if spec_file_id(f.spec_original_path()) == id_or_path || same_path(
            f.spec_original_path(),
            id_or_path,
        ) {
            rest.push(f)
        } else {
            rest
        }
    }
}

/// Keeps the files that the argument names, by id or by original path.
pub fn files_matching(files: Vec<TrashFile>, id_or_path: &[u8]) -> (r: Vec<TrashFile>)
    ensures
        r@ == named_by(files@, id_or_path@),
{
    let ghost orig = files@;
    let n = files.len();
    let mut rest = files;
    let mut out: Vec<TrashFile> = Vec::new();
    let mut taken: usize = 0;
    assert(orig.take(0) =~= Seq::<TrashFile>::empty());
    while rest.len() > 0
        invariant
            taken + rest@.len() == orig.len(),
            orig.len() == n,
            rest@ == orig.skip(taken as int),
            out@ == named_by(orig.take(taken as int), id_or_path@),
        decreases rest@.len(),
    {
        let f = rest.remove(0);
        assert(orig.take(taken + 1).drop_last() =~= orig.take(taken as int));
        assert(orig.take(taken + 1).last() == f);
        assert(rest@ =~= orig.skip(taken + 1));
        if f.matches_id_or_path(id_or_path) {
            out.push(f);
        }
        taken = taken + 1;
    }
    assert(orig.take(taken as int) =~= orig);
    out
}

/// The value of a string of decimal digits.
pub open spec fn digits_value(s: Seq<u8>) -> int
    decreases s.len(),
{
    if s.len() == 0 {
        0
    } else {
        digits_value(s.drop_last()) * 10 + (s.last() - 48)
    }
}

/// Every byte is an ASCII digit.
pub open spec fn all_digits(s: Seq<u8>) -> bool {
    forall|i: int| 0 <= i < s.len() ==> 48 <= #[trigger] s[i] <= 57
}

/// What parsing the text as a `usize` gives: an optional `+`, then at
/// least one digit, and a value that fits.
pub open spec fn spec_parse_usize(s: Seq<u8>) -> Option<usize> {
    let t = if s.len() > 0 && s[0] == 43u8 {
        s.drop_first()
    } else {
        s
    };
    if t.len() > 0 && all_digits(t) && digits_value(t) <= usize::MAX {
        Some(digits_value(t) as usize)
    } else {
        None
    }
}

proof fn lemma_digits_value_grows(t: Seq<u8>, i: int)
    requires
        0 <= i <= t.len(),
        all_digits(t),
    ensures
        0 <= digits_value(t.take(i)) <= digits_value(t),
    decreases t.len() - i,
{
    if i < t.len() {
        lemma_digits_value_grows(t, i + 1);
        assert(t.take(i + 1).drop_last() =~= t.take(i));
        assert(t.take(i + 1).last() == t[i]);
    } else {
        assert(t.take(i) =~= t);
    }
    lemma_digits_value_nonneg(t.take(i));
}

proof fn lemma_digits_value_nonneg(t: Seq<u8>)
    requires
        all_digits(t),
    ensures
        digits_value(t) >= 0,
    decreases t.len(),
{
    if t.len() > 0 {
        lemma_digits_value_nonneg(t.drop_last());
    }
}

/// Parses the text as a `usize`, as `str::parse` does.
pub fn parse_usize(s: &[u8]) -> (r: Option<usize>)
    ensures
        r == spec_parse_usize(s@),
{
    let start: usize = if s.len() > 0 && s[0] == 43u8 {
        1
    } else {
        0
    };
    let ghost t = if s@.len() > 0 && s@[0] == 43u8 {
        s@.drop_first()
    } else {
        s@
    };
    assert(t =~= s@.skip(start as int));
    if start >= s.len() {
        return None;
    }
    let mut i = start;
    let mut v: usize = 0;
    assert(t.take(0) =~= Seq::<u8>::empty());
    while i < s.len()
        invariant
            start <= i <= s@.len(),
            t == s@.skip(start as int),
            t == (if s@.len() > 0 && s@[0] == 43u8 {
                s@.drop_first()
            } else {
                s@
            }),
            forall|j: int| 0 <= j < i - start ==> 48 <= #[trigger] t[j] <= 57,
            v == digits_value(t.take(i - start)),
        decreases s@.len() - i,
    {
        let b = s[i];
        assert(t[i - start] == b);
        if b < 48 || b > 57 {
            assert(!all_digits(t));
            return None;
        }
        let d = (b - 48) as usize;
        assert(t.take(i - start + 1).drop_last() =~= t.take(i - start));
        assert(t.take(i - start + 1).last() == b);
        if v > (usize::MAX - d) / 10 {
            proof {
                assert(v * 10 + d > usize::MAX) by (nonlinear_arith)
                    requires
                        v > (usize::MAX - d) / 10,
                        d <= 9,
                ;
                let k = i - start + 1;
                assert(digits_value(t.take(k)) == v * 10 + d);
                if all_digits(t) {
                    lemma_digits_value_grows(t, k);
                    assert(digits_value(t) > usize::MAX);
                }
            }
            return None;
        }
        proof {
            assert(v * 10 + d <= usize::MAX) by (nonlinear_arith)
                requires
                    v <= (usize::MAX - d) / 10,
                    d <= 9,
            ;
        }
        v = v * 10 + d;
        i = i + 1;
    }
    assert(t.take(i - start) =~= t);
    Some(v)
}

/// Which of `len` options a number chosen by the user picks: the numbers
/// start at 1; any other number picks none.
pub fn choice_index(choice: usize, len: usize) -> (r: Option<usize>)
    ensures
        match r {
            Some(i) => 1 <= choice <= len && i == choice - 1,
            None => choice == 0 || choice > len,
        },
{
    let i = choice.wrapping_sub(1);
    if i < len {
        Some(i)
    } else {
        None
    }
}

/// The answer a line gives to a yes/no question, or `None` to ask again.
pub open spec fn line_answer(s: Seq<u8>, default_answer: bool) -> Option<bool> {
    if s.len() == 0 {
        Some(default_answer)
    } else if s.len() == 1 && (s[0] == 121u8 || s[0] == 89u8) {
        Some(true)
    } else if s.len() == 1 && (s[0] == 110u8 || s[0] == 78u8) {
        Some(false)
    } else {
        None
    }
}

/// The line with ASCII capital letters made small, as
/// `str::to_ascii_lowercase` does.
pub open spec fn ascii_lowercase(s: Seq<u8>) -> Seq<u8> {
    Seq::new(s.len(), |i: int| if 65 <= s[i] <= 90 { (s[i] + 32) as u8 } else { s[i] })
}

/// Answers are read case-insensitively: a line reads as its lower-case
/// form does; an empty line gives the default, a line that is `y` once made
/// lower-case gives yes, `n` gives no, and anything else is asked again.
pub proof fn lemma_answer_case_insensitive(s: Seq<u8>, default_answer: bool)
    ensures
        line_answer(s, default_answer) == line_answer(ascii_lowercase(s), default_answer),
        line_answer(s, default_answer) == (if s.len() == 0 {
            Some(default_answer)
        } else if ascii_lowercase(s) == seq![121u8] {
            Some(true)
        } else if ascii_lowercase(s) == seq![110u8] {
            Some(false)
        } else {
            None
        }),
{
    let l = ascii_lowercase(s);
    if s.len() == 1 {
        assert(l[0] == if 65 <= s[0] <= 90 { (s[0] + 32) as u8 } else { s[0] });
        if l == seq![121u8] {
            assert(l[0] == 121u8);
        }
        if l == seq![110u8] {
            assert(l[0] == 110u8);
        }
        if s[0] == 121u8 || s[0] == 89u8 {
            assert(l =~= seq![121u8]);
        }
        if s[0] == 110u8 || s[0] == 78u8 {
            assert(l =~= seq![110u8]);
        }
        assert(ascii_lowercase(l)[0] == l[0]);
    } else {
        assert(l.len() != 1);
        assert(seq![121u8].len() == 1);
        assert(seq![110u8].len() == 1);
    }
}

/// The answer to a yes/no question: no input or an empty line gives the
/// default, `y` or `n` in either case gives yes or no, anything else asks
/// again (`None`).
pub fn yes_no_answer(input: Option<&[u8]>, default_answer: bool) -> (r: Option<bool>)
    ensures
        input is None ==> r == Some(default_answer),
        input matches Some(s) ==> r == line_answer(s@, default_answer),
{
    match input {
        None => Some(default_answer),
        Some(s) => {
            if s.len() == 0 {
                Some(default_answer)
            } else if s.len() == 1 && (s[0] == 121u8 || s[0] == 89u8) {
                Some(true)
            } else if s.len() == 1 && (s[0] == 110u8 || s[0] == 78u8) {
                Some(false)
            } else {
                None
            }
        },
    }
}

/// Whether `trash empty` removes a file trashed at `deleted_at`: with a
/// bound before, those trashed before it; else with a bound after, those
/// trashed after it; else with a number of days to keep, those trashed
/// before the cut-off (`None` where the cut-off does not exist: nothing);
/// else every file.
pub fn should_empty(
    deleted_at: &LocalDateTime,
    before: Option<LocalDateTime>,
    after: Option<LocalDateTime>,
    keep_cutoff: Option<Option<LocalDateTime>>,
) -> (r: bool)
    ensures
        r == match before {
            Some(b) => deleted_at.spec_before(b),
            None => match after {
                Some(a) => a.spec_before(*deleted_at),
                None => match keep_cutoff {
                    Some(Some(c)) => deleted_at.spec_before(c),
                    Some(None) => false,
                    None => true,
                },
            },
        },
{
    match before {
        Some(b) => deleted_at.before(&b),
        None => match after {
            Some(a) => a.before(deleted_at),
            None => match keep_cutoff {
                Some(Some(c)) => deleted_at.before(&c),
                Some(None) => false,
                None => true,
            },
        },
    }
}

} // verus!
