//! All trash cans of the system behind one interface.
use crate::bytes::{
    copy_range, find, find_byte, lemma_find, range_texts, ranges_within, split_pieces,
    split_ranges,
};
use crate::error::Error;
use crate::path::{spec_starts_with, starts_with};
use crate::trash::{Trash, TrashType};
use std::rc::Rc;
use vstd::multiset::Multiset;
use vstd::prelude::*;

verus! {

/// The trash cans of priority `q`, in their order.
pub open spec fn with_priority(v: Seq<Rc<Trash>>, q: int) -> Seq<Rc<Trash>>
    decreases v.len(),
{
    if v.len() == 0 {
        seq![]
    } else if v.last().spec_priority() == q {
        with_priority(v.drop_last(), q).push(v.last())
    } else {
        with_priority(v.drop_last(), q)
    }
}

/// The trash cans ordered by priority, highest first, keeping the order of
/// those of equal priority: home, then admin, then user trash cans.
pub open spec fn by_priority(v: Seq<Rc<Trash>>) -> Seq<Rc<Trash>> {
    with_priority(v, 3) + with_priority(v, 2) + with_priority(v, 1)
}

/// Sorts the trash cans by their priority, highest first, such that admin
/// trash cans always come before user trash cans; the sort is stable.
pub fn sort_trashes(trashes: &mut Vec<Rc<Trash>>)
    ensures
        final(trashes)@ == by_priority(old(trashes)@),
{
    let ghost orig = trashes@;
    let n = trashes.len();
    let mut home: Vec<Rc<Trash>> = Vec::new();
    let mut admin: Vec<Rc<Trash>> = Vec::new();
    let mut user: Vec<Rc<Trash>> = Vec::new();
    let mut taken: usize = 0;
    assert(orig.take(0) =~= Seq::<Rc<Trash>>::empty());
    while trashes.len() > 0
        invariant
            taken + trashes@.len() == orig.len(),
            orig.len() == n,
            trashes@ == orig.skip(taken as int),
            home@ == with_priority(orig.take(taken as int), 3),
            admin@ == with_priority(orig.take(taken as int), 2),
            user@ == with_priority(orig.take(taken as int), 1),
        decreases trashes@.len(),
    {
        let t = trashes.remove(0);
        assert(orig.take(taken + 1).drop_last() =~= orig.take(taken as int));
        assert(orig.take(taken + 1).last() == t);
        assert(trashes@ =~= orig.skip(taken + 1));
        match t.trash_type() {
            TrashType::Home => home.push(t),
            TrashType::Admin => admin.push(t),
            TrashType::User => user.push(t),
        }
        taken = taken + 1;
    }
    assert(orig.take(taken as int) =~= orig);
    trashes.append(&mut home);
    trashes.append(&mut admin);
    trashes.append(&mut user);
}

proof fn lemma_with_priority_all(v: Seq<Rc<Trash>>, q: int)
    ensures
        forall|i: int|
            0 <= i < with_priority(v, q).len() ==> (#[trigger] with_priority(v, q)[i]).spec_priority()
                == q,
    decreases v.len(),
{
    if v.len() > 0 {
        lemma_with_priority_all(v.drop_last(), q);
        let w = with_priority(v.drop_last(), q);
        assert forall|i: int|
            0 <= i < with_priority(v, q).len() implies (#[trigger] with_priority(
            v,
            q,
        )[i]).spec_priority() == q by {
            if i < w.len() {
                assert(with_priority(v, q)[i] == w[i]);
            }
        }
    }
}

proof fn lemma_with_priority_concat(a: Seq<Rc<Trash>>, b: Seq<Rc<Trash>>, q: int)
    ensures
        with_priority(a + b, q) == with_priority(a, q) + with_priority(b, q),
    decreases b.len(),
{
    if b.len() == 0 {
        assert(a + b =~= a);
        assert(with_priority(a, q) + with_priority(b, q) =~= with_priority(a, q));
    } else {
        lemma_with_priority_concat(a, b.drop_last(), q);
        assert((a + b).drop_last() =~= a + b.drop_last());
        assert((a + b).last() == b.last());
        assert(with_priority(a, q) + with_priority(b.drop_last(), q).push(b.last()) =~= (
        with_priority(a, q) + with_priority(b.drop_last(), q)).push(b.last()));
    }
}

proof fn lemma_with_priority_twice(v: Seq<Rc<Trash>>, p: int, q: int)
    ensures
        with_priority(with_priority(v, p), q) == if p == q {
            with_priority(v, p)
        } else {
            Seq::<Rc<Trash>>::empty()
        },
    decreases v.len(),
{
    if v.len() > 0 {
        lemma_with_priority_twice(v.drop_last(), p, q);
        let w = with_priority(v.drop_last(), p);
        if v.last().spec_priority() == p {
            assert(w.push(v.last()).drop_last() =~= w);
        }
    }
}

proof fn lemma_with_priority_multiset(v: Seq<Rc<Trash>>)
    ensures
        v.to_multiset() == with_priority(v, 3).to_multiset().add(
            with_priority(v, 2).to_multiset(),
        ).add(with_priority(v, 1).to_multiset()),
    decreases v.len(),
{
    broadcast use vstd::seq_lib::group_to_multiset_ensures;
    broadcast use vstd::multiset::group_multiset_axioms;

    if v.len() == 0 {
        assert(v.to_multiset() =~= Multiset::empty());
        assert(with_priority(v, 3).to_multiset() =~= Multiset::empty());
        assert(with_priority(v, 2).to_multiset() =~= Multiset::empty());
        assert(with_priority(v, 1).to_multiset() =~= Multiset::empty());
    } else {
        let w = v.drop_last();
        let x = v.last();
        lemma_with_priority_multiset(w);
        assert(v =~= w.push(x));
        let pr = x.spec_priority();
        assert(pr == 1 || pr == 2 || pr == 3);
        assert(v.to_multiset() =~= w.to_multiset().insert(x));
        assert(v.to_multiset() =~= with_priority(v, 3).to_multiset().add(
            with_priority(v, 2).to_multiset(),
        ).add(with_priority(v, 1).to_multiset()));
    }
}

/// Ordering by priority puts higher priorities first, keeps the order of
/// the trash cans of each priority, and keeps every trash can.
pub proof fn lemma_by_priority_sorted(v: Seq<Rc<Trash>>)
    ensures
        forall|i: int, j: int|
            0 <= i < j < by_priority(v).len() ==> (#[trigger] by_priority(v)[i]).spec_priority()
                >= (#[trigger] by_priority(v)[j]).spec_priority(),
        forall|q: int| #[trigger] with_priority(by_priority(v), q) == with_priority(v, q),
        by_priority(v).to_multiset() == v.to_multiset(),
{
    let a = with_priority(v, 3);
    let b = with_priority(v, 2);
    let c = with_priority(v, 1);
    let r = by_priority(v);
    lemma_with_priority_all(v, 3);
    lemma_with_priority_all(v, 2);
    lemma_with_priority_all(v, 1);
    assert forall|i: int, j: int|
        0 <= i < j < r.len() implies (#[trigger] r[i]).spec_priority() >= (
        #[trigger] r[j]).spec_priority() by {
        assert(r == a + b + c);
        if i < a.len() {
            assert(r[i] == a[i]);
        } else if i < a.len() + b.len() {
            assert(r[i] == b[i - a.len()]);
        } else {
            assert(r[i] == c[i - a.len() - b.len()]);
        }
        if j < a.len() {
            assert(r[j] == a[j]);
        } else if j < a.len() + b.len() {
            assert(r[j] == b[j - a.len()]);
        } else {
            assert(r[j] == c[j - a.len() - b.len()]);
        }
    }
    assert forall|q: int| #[trigger] with_priority(by_priority(v), q) == with_priority(v, q) by {
        lemma_with_priority_concat(a + b, c, q);
        lemma_with_priority_concat(a, b, q);
        lemma_with_priority_twice(v, 3, q);
        lemma_with_priority_twice(v, 2, q);
        lemma_with_priority_twice(v, 1, q);
        if q != 1 && q != 2 && q != 3 {
            lemma_with_priority_none(v, q);
        }
        assert(with_priority(r, q) =~= with_priority(v, q));
    }
    broadcast use vstd::seq_lib::lemma_multiset_commutative;

    lemma_with_priority_multiset(v);
    assert(r.to_multiset() == (a + b).to_multiset().add(c.to_multiset()));
}

proof fn lemma_with_priority_none(v: Seq<Rc<Trash>>, q: int)
    requires
        q != 1 && q != 2 && q != 3,
    ensures
        with_priority(v, q) == Seq::<Rc<Trash>>::empty(),
    decreases v.len(),
{
    if v.len() > 0 {
        lemma_with_priority_none(v.drop_last(), q);
    }
}

/// The trash cans found, in order.
pub open spec fn found(v: Seq<Option<Trash>>) -> Seq<Trash>
    decreases v.len(),
{
    if v.len() == 0 {
        seq![]
    } else {
        match v.last() {
            Some(t) => found(v.drop_last()).push(t),
            None => found(v.drop_last()),
        }
    }
}

/// The trash cans, each behind a new shared pointer.
pub open spec fn shared(v: Seq<Trash>) -> Seq<Rc<Trash>> {
    Seq::new(v.len(), |i: int| Rc::new(v[i]))
}

/// All trash cans of the system: those found at the mount points, in their
/// order, then the home trash can.
pub fn list_trashes(found_at_mounts: Vec<Option<Trash>>, home_trash: Trash) -> (r: Vec<
    Rc<Trash>,
>)
    ensures
        r@ == shared(found(found_at_mounts@).push(home_trash)),
{
    let ghost orig = found_at_mounts@;
    let mut rest = found_at_mounts;
    let mut out: Vec<Rc<Trash>> = Vec::new();
    let mut taken: usize = 0;
    let n = rest.len();
    assert(orig.take(0) =~= Seq::<Option<Trash>>::empty());
    assert(out@ =~= shared(Seq::<Trash>::empty()));
    while rest.len() > 0
        invariant
            taken + rest@.len() == orig.len(),
            orig.len() == n,
            rest@ == orig.skip(taken as int),
            out@ == shared(found(orig.take(taken as int))),
        decreases rest@.len(),
    {
        let t = rest.remove(0);
        assert(orig.take(taken + 1).drop_last() =~= orig.take(taken as int));
        assert(orig.take(taken + 1).last() == t);
        assert(rest@ =~= orig.skip(taken + 1));
        let ghost before = out@;
        match t {
            Some(t) => {
                out.push(Rc::new(t));
                assert(out@ =~= shared(found(orig.take(taken + 1))));
            },
            None => {},
        }
        taken = taken + 1;
    }
    assert(orig.take(taken as int) =~= orig);
    let ghost before = out@;
    out.push(Rc::new(home_trash));
    assert(out@ =~= shared(found(orig).push(home_trash)));
    out
}

/// The trash can at a mount point: the admin trash can where there is one,
/// else the user trash can, else none.
pub fn find_any_trash_at(admin: Result<Trash, Error>, user: Result<Trash, Error>) -> (r: Option<
    Trash,
>)
    ensures
        match admin {
            Ok(a) => r == Some(a),
            Err(_) => match user {
                Ok(u) => r == Some(u),
                Err(_) => r is None,
            },
        },
{
    match admin {
        Ok(a) => Some(a),
        Err(_) => match user {
            Ok(u) => Some(u),
            Err(_) => None,
        },
    }
}

/// The second field of a line of `/proc/mounts`, separated by spaces: the
/// mount point. A line without a space has none.
pub open spec fn second_field(l: Seq<u8>) -> Option<Seq<u8>> {
    let i = find(l, 32u8);
    if i < l.len() {
        let rest = l.skip(i + 1);
        Some(rest.take(find(rest, 32u8)))
    } else {
        None
    }
}

/// The mount points of the lines, skipping empty lines, where every other
/// line has one.
pub open spec fn mount_points_of(lines: Seq<Seq<u8>>) -> Option<Seq<Seq<u8>>>
    decreases lines.len(),
{
    if lines.len() == 0 {
        Some(seq![])
    } else if lines.last().len() == 0 {
        mount_points_of(lines.drop_last())
    } else {
        match (mount_points_of(lines.drop_last()), second_field(lines.last())) {
            (Some(m), Some(f)) => Some(m.push(f)),
            _ => None,
        }
    }
}

/// The mount points listed in the text of `/proc/mounts`.
pub open spec fn spec_mount_points(text: Seq<u8>) -> Option<Seq<Seq<u8>>> {
    mount_points_of(split_pieces(text, 10u8))
}

proof fn lemma_mount_points_prefix(ls: Seq<Seq<u8>>, m: int)
    requires
        0 <= m <= ls.len(),
        mount_points_of(ls.take(m)) is None,
    ensures
        mount_points_of(ls) is None,
    decreases ls.len() - m,
{
    if m < ls.len() {
        assert(ls.take(m + 1).drop_last() =~= ls.take(m));
        lemma_mount_points_prefix(ls, m + 1);
    } else {
        assert(ls.take(m) =~= ls);
    }
}

/// The texts of vectors.
pub open spec fn vec_texts(v: Seq<Vec<u8>>) -> Seq<Seq<u8>> {
    v.map_values(|x: Vec<u8>| x@)
}

/// Reads the mount points from the text of `/proc/mounts`: the second
/// space-separated field of every non-empty line.
pub fn parse_proc_mounts(text: &[u8]) -> (r: Result<Vec<Vec<u8>>, Error>)
    ensures
        match r {
            Ok(m) => spec_mount_points(text@) == Some(vec_texts(m@)),
            Err(e) => spec_mount_points(text@) is None && e is InvalidProcMounts,
        },
{
    let lines = split_ranges(text, 10u8);
    let ghost ls = split_pieces(text@, 10u8);
    let mut out: Vec<Vec<u8>> = Vec::new();
    let mut k: usize = 0;
    assert(ls.take(0) =~= Seq::<Seq<u8>>::empty());
    assert(vec_texts(out@) =~= Seq::<Seq<u8>>::empty());
    while k < lines.len()
        invariant
            k <= lines@.len(),
            ls == split_pieces(text@, 10u8),
            ranges_within(text@, lines@),
            range_texts(text@, lines@) == ls,
            mount_points_of(ls.take(k as int)) == Some(vec_texts(out@)),
        decreases lines@.len() - k,
    {
        let (a, b) = lines[k];
        let ghost line = text@.subrange(a as int, b as int);
        assert(line == ls[k as int]);
        assert(ls.take(k + 1).drop_last() =~= ls.take(k as int));
        assert(ls.take(k + 1).last() == line);
        if a < b {
            let s1 = find_byte(text, a, b, 32u8);
            if s1 == b {
                proof {
                    lemma_mount_points_prefix(ls, k + 1);
                }
                return Err(Error::InvalidProcMounts);
            }
            let s2 = find_byte(text, s1 + 1, b, 32u8);
            proof {
                let rest = line.skip(s1 - a + 1);
                assert(rest =~= text@.subrange(s1 + 1, b as int));
                assert(rest.take(s2 - (s1 + 1)) =~= text@.subrange(s1 + 1, s2 as int));
            }
            let ghost before = out@;
            out.push(copy_range(text, s1 + 1, s2));
            assert(vec_texts(out@) =~= vec_texts(before).push(text@.subrange(s1 + 1, s2 as int)));
        }
        k = k + 1;
    }
    assert(ls.take(k as int) =~= ls);
    Ok(out)
}

/// The trash can `t` can hold the file at the absolute path `abs_path` on
/// `device`: it lies on the same device, and the path lies under its
/// public part.
pub open spec fn qualifies(t: Rc<Trash>, device: u64, abs_path: Seq<u8>) -> bool {
    t.spec_device() == device && spec_starts_with(abs_path, t.spec_based_on())
}

/// Unifies all trashcans on the system into one interface.
#[derive(Debug)]
pub struct UnifiedTrash {
    known_trashes: Vec<Rc<Trash>>,
}

impl UnifiedTrash {
    /// The known trash cans, in the order they are tried.
    pub closed spec fn spec_known(&self) -> Seq<Rc<Trash>> {
        self.known_trashes@
    }

    /// A unified trash with all trash cans of the system: those found at the
    /// mount points and the home trash can.
    pub fn new(found_at_mounts: Vec<Option<Trash>>, home_trash: Trash) -> (r: Self)
        ensures
            r.spec_known() == by_priority(shared(found(found_at_mounts@).push(home_trash))),
    {
        let trashes = list_trashes(found_at_mounts, home_trash);
        Self::with_trashcans(trashes)
    }

    /// A unified trash with a custom selection of trash cans, ordered by
    /// priority. Some operations may still add trash cans to it.
    pub fn with_trashcans(trashes: Vec<Rc<Trash>>) -> (r: Self)
        ensures
            r.spec_known() == by_priority(trashes@),
    {
        let mut trashes = trashes;
        sort_trashes(&mut trashes);
        UnifiedTrash { known_trashes: trashes }
    }

    /// The known trash cans, in the order they are tried.
    pub fn known_trashes(&self) -> (r: &Vec<Rc<Trash>>)
        ensures
            r@ == self.spec_known(),
    {
        &self.known_trashes
    }

    /// Which known trash can receives the file at the absolute path
    /// `abs_path` on `device`: the first that qualifies. Where none does,
    /// `NoTrashFound` when only known trash cans may be used, else `None`:
    /// a trash can at the file's mount point is to be found or made.
    pub fn select_known(&self, device: u64, abs_path: &[u8], known_only: bool) -> (r: Result<
        Option<usize>,
        Error,
    >)
        ensures
            match r {
                Ok(Some(i)) => i < self.spec_known().len() && qualifies(
                    self.spec_known()[i as int],
                    device,
                    abs_path@,
                ) && forall|j: int|
                    0 <= j < i ==> !qualifies(#[trigger] self.spec_known()[j], device, abs_path@),
                Ok(None) => !known_only && forall|j: int|
                    0 <= j < self.spec_known().len() ==> !qualifies(
                        #[trigger] self.spec_known()[j],
                        device,
                        abs_path@,
                    ),
                Err(e) => known_only && e is NoTrashFound && forall|j: int|
                    0 <= j < self.spec_known().len() ==> !qualifies(
                        #[trigger] self.spec_known()[j],
                        device,
                        abs_path@,
                    ),
            },
    {
        let mut i: usize = 0;
        while i < self.known_trashes.len()
            invariant
                i <= self.known_trashes@.len(),
                forall|j: int|
                    0 <= j < i ==> !qualifies(
                        #[trigger] self.known_trashes@[j],
                        device,
                        abs_path@,
                    ),
            decreases self.known_trashes@.len() - i,
        {
            let t = &self.known_trashes[i];
            if t.device() == device && starts_with(abs_path, t.based_on()) {
                return Ok(Some(i));
            }
            i = i + 1;
        }
        if known_only {
            Err(Error::NoTrashFound)
        } else {
            Ok(None)
        }
    }

    /// Adds a trash can, keeping the order by priority.
    pub fn add_trash(&mut self, trash: Rc<Trash>)
        ensures
            final(self).spec_known() == by_priority(old(self).spec_known().push(trash)),
    {
        self.known_trashes.push(trash);
        sort_trashes(&mut self.known_trashes);
    }
}

} // verus!
