//! Wire records: encoding a transform record into keyed entries and decoding
//! keyed entries back, with absent fields taken from a base record.
use vstd::prelude::*;

use crate::field::WireField;

verus! {

/// One keyed field as read from, or written to, the wire.
pub struct WireEntry<T> {
    pub field: WireField,
    pub values: Vec<T>,
}

impl<T> View for WireEntry<T> {
    type V = (WireField, Seq<T>);

    open spec fn view(&self) -> (WireField, Seq<T>) {
        (self.field, self.values@)
    }
}

/// The numbers of a transform in wire order: translation x, y, z; rotation
/// w, x, y, z; scale x, y, z.
#[derive(Clone, Copy, Debug)]
pub struct WireRecord<T> {
    pub translation: [T; 3],
    pub rotation: [T; 4],
    pub scale: [T; 3],
}

/// A wire record seen as three sequences of numbers.
pub struct RecordModel<T> {
    pub translation: Seq<T>,
    pub rotation: Seq<T>,
    pub scale: Seq<T>,
}

impl<T> RecordModel<T> {
    /// The record with the numbers of one field replaced.
    pub open spec fn with(self, f: WireField, v: Seq<T>) -> RecordModel<T> {
        match f {
            WireField::Translation => RecordModel { translation: v, ..self },
            WireField::Rotation => RecordModel { rotation: v, ..self },
            WireField::Scale => RecordModel { scale: v, ..self },
        }
    }
}

impl<T> View for WireRecord<T> {
    type V = RecordModel<T>;

    open spec fn view(&self) -> RecordModel<T> {
        RecordModel {
            translation: self.translation@,
            rotation: self.rotation@,
            scale: self.scale@,
        }
    }
}

/// Why a sequence of entries is not a valid record. Each error names the
/// field at fault.
#[derive(Clone, Copy, Debug, PartialEq, Eq, Structural)]
pub enum WireError {
    /// The field occurs a second time.
    DuplicateField(WireField),
    /// The field holds `found` numbers instead of its arity.
    WrongCount { field: WireField, found: usize },
}

impl WireError {
    pub open spec fn spec_field(self) -> WireField {
        match self {
            WireError::DuplicateField(f) => f,
            WireError::WrongCount { field, .. } => field,
        }
    }

    /// The field that was malformed.
    pub fn field(&self) -> (r: WireField)
        ensures
            r == self.spec_field(),
    {
        match self {
            WireError::DuplicateField(f) => *f,
            WireError::WrongCount { field, .. } => *field,
        }
    }
}

/// The entries as pairs of a field and its numbers.
pub open spec fn entries_view<T>(es: Seq<WireEntry<T>>) -> Seq<(WireField, Seq<T>)> {
    es.map_values(|e: WireEntry<T>| e@)
}

/// Some entry of `es` is for field `f`.
pub open spec fn has_field<T>(es: Seq<(WireField, Seq<T>)>, f: WireField) -> bool {
    exists|j: int| 0 <= j < es.len() && (#[trigger] es[j]).0 == f
}

/// Decoding reads the entries in order. The first entry that repeats an
/// earlier field, or holds the wrong number of values, decides the error;
/// otherwise each entry replaces its field in `base`.
pub open spec fn decoded<T>(es: Seq<(WireField, Seq<T>)>, base: RecordModel<T>) -> Result<
    RecordModel<T>,
    WireError,
>
    decreases es.len(),
{
    if es.len() == 0 {
        Ok(base)
    } else {
        let prefix = es.drop_last();
        let f = es.last().0;
        let v = es.last().1;
        match decoded(prefix, base) {
            Err(e) => Err(e),
            Ok(acc) => if has_field(prefix, f) {
                Err(WireError::DuplicateField(f))
            } else if v.len() != f.spec_arity() {
                Err(WireError::WrongCount { field: f, found: v.len() as usize })
            } else {
                Ok(acc.with(f, v))
            },
        }
    }
}

/// The entries of a record: each field once, in canonical order.
pub open spec fn encoded<T>(r: RecordModel<T>) -> Seq<(WireField, Seq<T>)> {
    seq![
        (WireField::Translation, r.translation),
        (WireField::Rotation, r.rotation),
        (WireField::Scale, r.scale),
    ]
}

pub open spec fn result_view<T>(r: Result<WireRecord<T>, WireError>) -> Result<
    RecordModel<T>,
    WireError,
> {
    match r {
        Ok(rec) => Ok(rec@),
        Err(e) => Err(e),
    }
}

/// Encodes a record as its three entries, in canonical order.
pub fn encode<T: Copy>(r: &WireRecord<T>) -> (es: Vec<WireEntry<T>>)
    ensures
        entries_view(es@) == encoded(r@),
{
    let mut es: Vec<WireEntry<T>> = Vec::new();
    es.push(WireEntry { field: WireField::Translation, values: array_values(&r.translation) });
    es.push(WireEntry { field: WireField::Rotation, values: array_values(&r.rotation) });
    es.push(WireEntry { field: WireField::Scale, values: array_values(&r.scale) });
    assert(entries_view(es@) =~= encoded(r@));
    es
}

fn array_values<T: Copy, const N: usize>(a: &[T; N]) -> (v: Vec<T>)
    ensures
        v@ == a@,
{
    let mut v: Vec<T> = Vec::new();
    let mut i: usize = 0;
    while i < N
        invariant
            0 <= i <= N,
            a@.len() == N,
            v@ == a@.take(i as int),
        decreases N - i,
    {
        v.push(a[i]);
        i = i + 1;
        assert(v@ =~= a@.take(i as int));
    }
    assert(a@.take(N as int) =~= a@);
    v
}

fn values_array<T: Copy, const N: usize>(v: &Vec<T>) -> (a: [T; N])
    requires
        v@.len() == N,
        N > 0,
    ensures
        a@ == v@,
{
    let mut a: [T; N] = [v[0]; N];
    let mut i: usize = 0;
    while i < N
        invariant
            0 <= i <= N,
            v@.len() == N,
            a@.len() == N,
            forall|j: int| 0 <= j < i ==> a@[j] == v@[j],
        decreases N - i,
    {
        a.set(i, v[i]);
        i = i + 1;
    }
    assert(a@ =~= v@);
    a
}

/// Once a prefix of the entries fails to decode, the whole sequence fails
/// with the same error.
proof fn lemma_error_persists<T>(es: Seq<(WireField, Seq<T>)>, base: RecordModel<T>, k: int)
    requires
        0 <= k <= es.len(),
        decoded(es.take(k), base) is Err,
    ensures
        decoded(es, base) == decoded(es.take(k), base),
    decreases es.len() - k,
{
    if k == es.len() {
        assert(es.take(k) =~= es);
    } else {
        let prefix = es.drop_last();
        assert(prefix.take(k) =~= es.take(k));
        lemma_error_persists(prefix, base, k);
    }
}

/// Decodes entries read from the wire. Fields that no entry names keep
/// their value from `base`.
pub fn decode<T: Copy>(entries: &Vec<WireEntry<T>>, base: &WireRecord<T>) -> (r: Result<
    WireRecord<T>,
    WireError,
>)
    ensures
        result_view(r) == decoded(entries_view(entries@), base@),
{
    let ghost es = entries_view(entries@);
    let mut rec = WireRecord {
        translation: base.translation,
        rotation: base.rotation,
        scale: base.scale,
    };
    let mut seen_translation = false;
    let mut seen_rotation = false;
    let mut seen_scale = false;
    let mut i: usize = 0;
    while i < entries.len()
        invariant
            0 <= i <= entries.len(),
            es == entries_view(entries@),
            decoded(es.take(i as int), base@) == Ok::<RecordModel<T>, WireError>(rec@),
            seen_translation == has_field(es.take(i as int), WireField::Translation),
            seen_rotation == has_field(es.take(i as int), WireField::Rotation),
            seen_scale == has_field(es.take(i as int), WireField::Scale),
        decreases entries.len() - i,
    {
        let entry = &entries[i];
        let f = entry.field;
        let ghost next = es.take(i + 1);
        assert(next.drop_last() =~= es.take(i as int));
        assert(next.last() == es[i as int]);
        let seen = match f {
            WireField::Translation => seen_translation,
            WireField::Rotation => seen_rotation,
            WireField::Scale => seen_scale,
        };
        if seen {
            proof {
                lemma_error_persists(es, base@, i + 1);
            }
            return Err(WireError::DuplicateField(f));
        }
        if entry.values.len() != f.arity() {
            proof {
                lemma_error_persists(es, base@, i + 1);
            }
            return Err(WireError::WrongCount { field: f, found: entry.values.len() });
        }
        match f {
            WireField::Translation => {
                rec.translation = values_array(&entry.values);
                seen_translation = true;
            },
            WireField::Rotation => {
                rec.rotation = values_array(&entry.values);
                seen_rotation = true;
            },
            WireField::Scale => {
                rec.scale = values_array(&entry.values);
                seen_scale = true;
            },
        }
        i = i + 1;
        assert forall|g: WireField| has_field(next, g) == (has_field(es.take(i - 1), g) || g == f) by {
            if g == f {
                assert(next[i - 1].0 == f);
            }
            if has_field(es.take(i - 1), g) {
                let j = choose|j: int| 0 <= j < es.take(i - 1).len() && (#[trigger] es.take(i - 1)[j]).0 == g;
                assert(next[j] == es.take(i - 1)[j]);
            }
        }
    }
    assert(es.take(entries.len() as int) =~= es);
    Ok(rec)
}

/// Decoding what `encode` wrote gives back the record itself, whatever the
/// base: every field is present, once, with its full count of numbers.
pub proof fn lemma_decode_encode<T>(r: WireRecord<T>, base: RecordModel<T>)
    ensures
        decoded(encoded(r@), base) == Ok::<RecordModel<T>, WireError>(r@),
{
    let es = encoded(r@);
    let p2 = es.drop_last();
    let p1 = p2.drop_last();
    let p0 = p1.drop_last();
    assert(p0 =~= Seq::<(WireField, Seq<T>)>::empty());
    assert(p1.last().0 == WireField::Translation);
    assert(p2.last().0 == WireField::Rotation);
    assert(es.last().0 == WireField::Scale);
    assert(!has_field(p0, WireField::Translation));
    assert(!has_field(p1, WireField::Rotation)) by {
        assert(p1.len() == 1 && p1[0].0 == WireField::Translation);
    }
    assert(!has_field(p2, WireField::Scale)) by {
        assert(p2.len() == 2 && p2[0].0 == WireField::Translation && p2[1].0
            == WireField::Rotation);
    }
    assert(decoded(p0, base) == Ok::<RecordModel<T>, WireError>(base));
    assert(decoded(p1, base) == Ok::<RecordModel<T>, WireError>(
        base.with(WireField::Translation, r.translation@),
    ));
    assert(decoded(p2, base) == Ok::<RecordModel<T>, WireError>(
        base.with(WireField::Translation, r.translation@).with(
            WireField::Rotation,
            r.rotation@,
        ),
    ));
}

/// Decoding no entries gives the base record.
pub proof fn lemma_decode_empty<T>(base: RecordModel<T>)
    ensures
        decoded(Seq::<(WireField, Seq<T>)>::empty(), base) == Ok::<RecordModel<T>, WireError>(
            base,
        ),
{
}

/// A record that holds one well-formed field decodes to the base record
/// with that field replaced: the other fields take their defaults.
pub proof fn lemma_decode_single_field<T>(f: WireField, v: Seq<T>, base: RecordModel<T>)
    requires
        v.len() == f.spec_arity(),
    ensures
        decoded(seq![(f, v)], base) == Ok::<RecordModel<T>, WireError>(base.with(f, v)),
{
    let es = seq![(f, v)];
    assert(es.drop_last() =~= Seq::<(WireField, Seq<T>)>::empty());
    assert(decoded(es.drop_last(), base) == Ok::<RecordModel<T>, WireError>(base));
}

} // verus!
