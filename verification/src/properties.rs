//! The device-property descriptor: property code, datatype, access
//! flags, factory-default and current values, and the constraint form —
//! none, a numeric range, or an enumerated value set.
use vstd::prelude::*;
use crate::codec::{
    fixed_end, str_end, le16, le32, u16_at, u32_at, concat_bytes, Reader, lemma_le16,
    lemma_le32, lemma_concat_parts,
};
use crate::datatype::{
    dt_bytes, dt_code, dt_encodable, dt_end, DtValue, PtpDataType,
};
use crate::error::{Error, MalformedKind};

verus! {

/// The mathematical value of a `PtpFormData`.
pub enum FormV {
    NoForm,
    Range { minValue: DtValue, maxValue: DtValue, step: DtValue },
    Enumeration { array: Seq<DtValue> },
}

/// The constraint shape of a property value: none, a numeric range with
/// a step, or an enumerated set of allowed values.
#[derive(Debug, PartialEq)]
pub enum PtpFormData {
    NoForm,
    Range { minValue: PtpDataType, maxValue: PtpDataType, step: PtpDataType },
    Enumeration { array: Vec<PtpDataType> },
}

impl View for PtpFormData {
    type V = FormV;

    open spec fn view(&self) -> FormV {
        match self {
            PtpFormData::NoForm => FormV::NoForm,
            PtpFormData::Range { minValue, maxValue, step } => FormV::Range {
                minValue: minValue@,
                maxValue: maxValue@,
                step: step@,
            },
            PtpFormData::Enumeration { array } => FormV::Enumeration {
                array: Seq::new(array@.len(), |i: int| array@[i]@),
            },
        }
    }
}

/// The mathematical value of a `PtpPropInfo`.
pub struct PropInfoV {
    pub PropertyCode: u16,
    pub DataType: u16,
    pub GetSet: u8,
    pub IsEnable: u8,
    pub FactoryDefault: DtValue,
    pub Current: DtValue,
    pub Form: FormV,
}

/// A device property descriptor.
#[derive(Debug, PartialEq)]
pub struct PtpPropInfo {
    pub PropertyCode: u16,
    pub DataType: u16,
    pub GetSet: u8,
    pub IsEnable: u8,
    pub FactoryDefault: PtpDataType,
    pub Current: PtpDataType,
    pub Form: PtpFormData,
}

impl View for PtpPropInfo {
    type V = PropInfoV;

    open spec fn view(&self) -> PropInfoV {
        PropInfoV {
            PropertyCode: self.PropertyCode,
            DataType: self.DataType,
            GetSet: self.GetSet,
            IsEnable: self.IsEnable,
            FactoryDefault: self.FactoryDefault@,
            Current: self.Current@,
            Form: self.Form@,
        }
    }
}

/// The wire form of the constraint form: a flag byte, then the form's
/// values, each of the property's datatype.
pub open spec fn form_bytes(f: FormV) -> Seq<u8> {
    match f {
        FormV::NoForm => seq![0u8],
        FormV::Range { minValue, maxValue, step } => seq![1u8] + (dt_bytes(minValue) + (dt_bytes(
            maxValue,
        ) + dt_bytes(step))),
        FormV::Enumeration { array } => seq![2u8] + (le16(array.len() as u16) + concat_bytes(
            array,
            |v: DtValue| dt_bytes(v),
        )),
    }
}

/// The canonical wire form of a device property descriptor.
pub open spec fn prop_info_bytes(dv: PropInfoV) -> Seq<u8> {
    le16(dv.PropertyCode) + (le16(dv.DataType) + (seq![dv.GetSet] + (seq![dv.IsEnable] + (dt_bytes(
        dv.FactoryDefault,
    ) + (dt_bytes(dv.Current) + form_bytes(dv.Form))))))
}

/// The values of the descriptor carry the descriptor's own datatype and
/// fit their length prefixes.
pub open spec fn prop_info_encodable(dv: PropInfoV) -> bool {
    &&& dt_code(dv.FactoryDefault) == dv.DataType
    &&& dt_encodable(dv.FactoryDefault)
    &&& dt_code(dv.Current) == dv.DataType
    &&& dt_encodable(dv.Current)
    &&& match dv.Form {
        FormV::NoForm => true,
        FormV::Range { minValue, maxValue, step } => dt_code(minValue) == dv.DataType
            && dt_encodable(minValue) && dt_code(maxValue) == dv.DataType && dt_encodable(maxValue)
            && dt_code(step) == dv.DataType && dt_encodable(step),
        FormV::Enumeration { array } => array.len() <= 0xFFFF && forall|i: int|
            0 <= i < array.len() ==> dt_code(#[trigger] array[i]) == dv.DataType && dt_encodable(
                array[i],
            ),
    }
}


/// Where `n` consecutive values of the datatype `kind` starting at `p`
/// end, if the buffer holds all of their bytes.
pub open spec fn dts_end(kind: u16, n: nat, b: Seq<u8>, p: int) -> Option<int>
    decreases n,
{
    if n == 0 {
        Some(p)
    } else {
        match dt_end(kind, b, p) {
            None => None,
            Some(q) => dts_end(kind, (n - 1) as nat, b, q),
        }
    }
}

/// Where a constraint form of the datatype `kind` starting at `p`
/// structurally ends: the flag byte, then three values for a range, a
/// 16-bit count and that many values for an enumeration, and nothing
/// more for any other flag.
pub open spec fn form_end(kind: u16, b: Seq<u8>, p: int) -> Option<int> {
    if p < b.len() {
        if b[p] == 1 {
            dts_end(kind, 3, b, p + 1)
        } else if b[p] == 2 {
            match fixed_end(b, p + 1, 2) {
                None => None,
                Some(q) => dts_end(kind, u16_at(b, p + 1) as nat, b, q),
            }
        } else {
            Some(p + 1)
        }
    } else {
        None
    }
}

/// Where a device property descriptor starting at `p` structurally
/// ends, if the buffer holds every field.
pub open spec fn prop_info_end(b: Seq<u8>, p: int) -> Option<int> {
    if p + 6 <= b.len() {
        match dt_end(u16_at(b, p + 2), b, p + 6) {
            None => None,
            Some(q1) => match dt_end(u16_at(b, p + 2), b, q1) {
                None => None,
                Some(q2) => form_end(u16_at(b, p + 2), b, q2),
            },
        }
    } else {
        None
    }
}

/// Where an object property descriptor starting at `p` structurally
/// ends, if the buffer holds every field.
pub open spec fn object_prop_desc_end(b: Seq<u8>, p: int) -> Option<int> {
    if p + 5 <= b.len() {
        match dt_end(u16_at(b, p + 2), b, p + 5) {
            None => None,
            Some(q1) => match fixed_end(b, q1, 4) {
                None => None,
                Some(q2) => form_end(u16_at(b, p + 2), b, q2),
            },
        }
    } else {
        None
    }
}

/// Where an object property record starting at `p` structurally ends,
/// if the buffer holds every field.
pub open spec fn object_property_end(b: Seq<u8>, p: int) -> Option<int> {
    if p + 8 <= b.len() {
        dt_end(u16_at(b, p + 6), b, p + 8)
    } else {
        None
    }
}


/// Where a device property descriptor's form flag sits, if the fields
/// before it are all there.
pub open spec fn prop_info_form_pos(b: Seq<u8>, p: int) -> Option<int> {
    if p + 6 <= b.len() {
        match dt_end(u16_at(b, p + 2), b, p + 6) {
            None => None,
            Some(q1) => dt_end(u16_at(b, p + 2), b, q1),
        }
    } else {
        None
    }
}

/// Where an object property descriptor's form flag sits, if the fields
/// before it are all there.
pub open spec fn object_prop_desc_form_pos(b: Seq<u8>, p: int) -> Option<int> {
    if p + 5 <= b.len() {
        match dt_end(u16_at(b, p + 2), b, p + 5) {
            None => None,
            Some(q1) => fixed_end(b, q1, 4),
        }
    } else {
        None
    }
}


/// The bytes of the first `k` values of an enumerated set, counted.
pub open spec fn dts_len(a: Seq<DtValue>, k: int) -> int
    decreases k,
{
    if k <= 0 {
        0
    } else {
        dts_len(a, k - 1) + dt_bytes(a[k - 1]).len()
    }
}

/// Dropping the first element shifts the counted prefix.
proof fn lemma_dts_len_shift(a: Seq<DtValue>, k: int)
    requires
        1 <= k <= a.len(),
    ensures
        dts_len(a, k) == dt_bytes(a[0]).len() + dts_len(a.drop_first(), k - 1),
    decreases k,
{
    if k == 1 {
        assert(dts_len(a, 1) == dts_len(a, 0) + dt_bytes(a[0]).len());
        assert(dts_len(a, 0) == 0);
        assert(dts_len(a.drop_first(), 0) == 0);
    } else {
        lemma_dts_len_shift(a, k - 1);
        assert(a.drop_first()[k - 2] == a[k - 1]);
        assert(dts_len(a, k) == dts_len(a, k - 1) + dt_bytes(a[k - 1]).len());
        assert(dts_len(a.drop_first(), k - 1) == dts_len(a.drop_first(), k - 2) + dt_bytes(
            a.drop_first()[k - 2],
        ).len());
    }
}


/// The counted prefix length never shrinks as more values are counted.
proof fn lemma_dts_len_mono(a: Seq<DtValue>, i: int, j: int)
    requires
        0 <= i <= j,
    ensures
        dts_len(a, i) <= dts_len(a, j),
    decreases j - i,
{
    if i < j {
        lemma_dts_len_mono(a, i, j - 1);
    }
}

/// Where the concatenated encodings of an enumerated set sit in a
/// buffer, each value's bytes sit at its counted offset.
#[verifier::rlimit(60)]
#[verifier::spinoff_prover]
proof fn lemma_dts_region(b: Seq<u8>, p: int, a: Seq<DtValue>)
    requires
        0 <= p,
        p + concat_bytes(a, |v: DtValue| dt_bytes(v)).len() <= b.len(),
        b.subrange(p, p + concat_bytes(a, |v: DtValue| dt_bytes(v)).len()) == concat_bytes(
            a,
            |v: DtValue| dt_bytes(v),
        ),
    ensures
        concat_bytes(a, |v: DtValue| dt_bytes(v)).len() == dts_len(a, a.len() as int),
        forall|k: int|
            0 <= k < a.len() ==> b.subrange(
                p + dts_len(a, k),
                p + dts_len(a, k + 1),
            ) == dt_bytes(#[trigger] a[k]),
    decreases a.len(),
{
    let f = |v: DtValue| dt_bytes(v);
    if a.len() == 0 {
    } else {
        let rest = a.drop_first();
        assert(concat_bytes(a, f) == f(a[0]) + concat_bytes(rest, f));
        lemma_concat_parts(b, p, f(a[0]), concat_bytes(rest, f));
        lemma_dts_region(b, p + dt_bytes(a[0]).len(), rest);
        assert forall|k: int| 0 <= k < a.len() implies b.subrange(
            p + dts_len(a, k),
            p + dts_len(a, k + 1),
        ) == dt_bytes(#[trigger] a[k]) by {
            if k == 0 {
                assert(dts_len(a, 0) == 0);
                assert(dts_len(a, 1) == dt_bytes(a[0]).len());
            } else {
                lemma_dts_len_shift(a, k);
                lemma_dts_len_shift(a, k + 1);
                assert(rest[k - 1] == a[k]);
                assert(b.subrange(
                    p + dt_bytes(a[0]).len() + dts_len(rest, k - 1),
                    p + dt_bytes(a[0]).len() + dts_len(rest, k),
                ) == dt_bytes(rest[k - 1]));
            }
        }
        assert(dts_len(a, a.len() as int) == dt_bytes(a[0]).len() + dts_len(
            rest,
            rest.len() as int,
        )) by {
            lemma_dts_len_shift(a, a.len() as int);
        }
    }
}

/// Where a descriptor's canonical encoding sits at `p` in `b`, every
/// field stands at its offset with its encoded value; the form region
/// is pinned down for the flag-only and range forms.
pub open spec fn prop_info_laid_out(b: Seq<u8>, p: int, dv: PropInfoV) -> bool {
    let o4 = p + 6;
    let o5 = o4 + dt_bytes(dv.FactoryDefault).len();
    let o6 = o5 + dt_bytes(dv.Current).len();
    &&& prop_info_bytes(dv).len() == 6 + dt_bytes(dv.FactoryDefault).len() + dt_bytes(
        dv.Current,
    ).len() + form_bytes(dv.Form).len()
    &&& u16_at(b, p) == dv.PropertyCode
    &&& u16_at(b, p + 2) == dv.DataType
    &&& b[p + 4] == dv.GetSet
    &&& b[p + 5] == dv.IsEnable
    &&& b.subrange(o4, o5) == dt_bytes(dv.FactoryDefault)
    &&& b.subrange(o5, o6) == dt_bytes(dv.Current)
    &&& (dv.Form is NoForm ==> b[o6] == 0 && form_bytes(dv.Form).len() == 1)
    &&& (dv.Form is Range ==> {
        let m = dv.Form->Range_minValue;
        let x = dv.Form->Range_maxValue;
        let s = dv.Form->Range_step;
        let o7 = o6 + 1;
        let o8 = o7 + dt_bytes(m).len();
        let o9 = o8 + dt_bytes(x).len();
        &&& b[o6] == 1
        &&& form_bytes(dv.Form).len() == 1 + dt_bytes(m).len() + dt_bytes(x).len() + dt_bytes(
            s,
        ).len()
        &&& b.subrange(o7, o8) == dt_bytes(m)
        &&& b.subrange(o8, o9) == dt_bytes(x)
        &&& b.subrange(o9, o9 + dt_bytes(s).len()) == dt_bytes(s)
    })
    &&& (dv.Form is Enumeration ==> {
        let a = dv.Form->Enumeration_array;
        &&& b[o6] == 2
        &&& u16_at(b, o6 + 1) == a.len()
        &&& form_bytes(dv.Form).len() == 3 + dts_len(a, a.len() as int)
        &&& forall|k: int|
            0 <= k < a.len() ==> b.subrange(
                o6 + 3 + dts_len(a, k),
                o6 + 3 + dts_len(a, k + 1),
            ) == dt_bytes(#[trigger] a[k])
    })
}

/// The layout fact holds wherever the canonical encoding of a
/// flag-only or range-form descriptor sits.
pub proof fn lemma_prop_info_fields(b: Seq<u8>, p: int, dv: PropInfoV)
    requires
        prop_info_encodable(dv),
        0 <= p,
        p + prop_info_bytes(dv).len() <= b.len(),
        b.subrange(p, p + prop_info_bytes(dv).len()) == prop_info_bytes(dv),
    ensures
        prop_info_laid_out(b, p, dv),
{
    lemma_le16(dv.PropertyCode);
    lemma_le16(dv.DataType);
    let efd = dt_bytes(dv.FactoryDefault);
    let ecu = dt_bytes(dv.Current);
    let efo = form_bytes(dv.Form);
    let total = prop_info_bytes(dv).len();
    assert(b.subrange(p, p + total) == prop_info_bytes(dv));
    lemma_concat_parts(
        b,
        p,
        le16(dv.PropertyCode),
        le16(dv.DataType) + (seq![dv.GetSet] + (seq![dv.IsEnable] + (efd + (ecu + efo)))),
    );
    lemma_concat_parts(
        b,
        p + 2,
        le16(dv.DataType),
        seq![dv.GetSet] + (seq![dv.IsEnable] + (efd + (ecu + efo))),
    );
    lemma_concat_parts(b, p + 4, seq![dv.GetSet], seq![dv.IsEnable] + (efd + (ecu + efo)));
    lemma_concat_parts(b, p + 5, seq![dv.IsEnable], efd + (ecu + efo));
    lemma_concat_parts(b, p + 6, efd, ecu + efo);
    lemma_concat_parts(b, p + 6 + efd.len(), ecu, efo);
    assert(u16_at(b, p) == dv.PropertyCode) by {
        assert(b.subrange(p, p + 2) == le16(dv.PropertyCode));
        vstd::bytes::lemma_auto_spec_u16_to_from_le_bytes();
    }
    assert(u16_at(b, p + 2) == dv.DataType) by {
        assert(b.subrange(p + 2, p + 4) == le16(dv.DataType));
        vstd::bytes::lemma_auto_spec_u16_to_from_le_bytes();
    }
    assert(b[p + 4] == b.subrange(p + 4, p + 5)[0]);
    assert(b[p + 5] == b.subrange(p + 5, p + 6)[0]);
    let o6 = p + 6 + efd.len() + ecu.len();
    assert(b.subrange(o6, o6 + efo.len()) == efo);
    if dv.Form is NoForm {
        assert(b[o6] == b.subrange(o6, o6 + efo.len())[0]);
    }
    if dv.Form is Range {
        let m = dv.Form->Range_minValue;
        let x = dv.Form->Range_maxValue;
        let s = dv.Form->Range_step;
        assert(efo == seq![1u8] + (dt_bytes(m) + (dt_bytes(x) + dt_bytes(s))));
        lemma_concat_parts(b, o6, seq![1u8], dt_bytes(m) + (dt_bytes(x) + dt_bytes(s)));
        lemma_concat_parts(b, o6 + 1, dt_bytes(m), dt_bytes(x) + dt_bytes(s));
        lemma_concat_parts(b, o6 + 1 + dt_bytes(m).len(), dt_bytes(x), dt_bytes(s));
        assert(b[o6] == b.subrange(o6, o6 + 1)[0]);
    }
    if dv.Form is Enumeration {
        let a = dv.Form->Enumeration_array;
        let fa = |v: DtValue| dt_bytes(v);
        lemma_le16(a.len() as u16);
        assert(efo == seq![2u8] + (le16(a.len() as u16) + concat_bytes(a, fa)));
        lemma_concat_parts(b, o6, seq![2u8], le16(a.len() as u16) + concat_bytes(a, fa));
        lemma_concat_parts(b, o6 + 1, le16(a.len() as u16), concat_bytes(a, fa));
        assert(b[o6] == b.subrange(o6, o6 + 1)[0]);
        assert(u16_at(b, o6 + 1) == a.len() as u16) by {
            assert(b.subrange(o6 + 1, o6 + 3) == le16(a.len() as u16));
            vstd::bytes::lemma_auto_spec_u16_to_from_le_bytes();
        }
        lemma_dts_region(b, o6 + 3, a);
    }
}




/// Read the fixed head of a device property descriptor: the property
/// code, the datatype, the two access flags, and the factory-default
/// and current values of that datatype.
#[verifier::rlimit(100)]
#[verifier::spinoff_prover]
fn read_prop_prefix(cur: &mut Reader, Ghost(b): Ghost<Seq<u8>>, Ghost(p0): Ghost<int>) -> (r:
    Result<(u16, u16, u8, u8, PtpDataType, PtpDataType), Error>)
    requires
        old(cur).wf(),
        old(cur).bytes() == b,
        old(cur).position() == p0,
    ensures
        final(cur).wf(),
        final(cur).bytes() == b,
        r is Err ==> r->Err_0 == Error::Malformed(MalformedKind::UnexpectedEnd) || r->Err_0
            == Error::Malformed(MalformedKind::InvalidUtf16),
        r is Ok ==> r->Ok_0.1 == u16_at(b, p0 + 2) && prop_info_form_pos(b, p0) == Some(
            final(cur).position(),
        ),
        r is Err ==> (forall|dv: PropInfoV| #![trigger prop_info_bytes(dv)]
            prop_info_encodable(dv) && p0 + prop_info_bytes(dv).len() <= b.len() && b.subrange(
                p0,
                p0 + prop_info_bytes(dv).len(),
            ) == prop_info_bytes(dv) ==> false),
        r is Ok ==> (forall|dv: PropInfoV| #![trigger prop_info_bytes(dv)]
            prop_info_encodable(dv) && p0 + prop_info_bytes(dv).len() <= b.len() && b.subrange(
                p0,
                p0 + prop_info_bytes(dv).len(),
            ) == prop_info_bytes(dv) ==> ({
                &&& prop_info_laid_out(b, p0, dv)
                &&& r->Ok_0.0 == dv.PropertyCode
                &&& r->Ok_0.1 == dv.DataType
                &&& r->Ok_0.2 == dv.GetSet
                &&& r->Ok_0.3 == dv.IsEnable
                &&& r->Ok_0.4@ == dv.FactoryDefault
                &&& r->Ok_0.5@ == dv.Current
                &&& final(cur).position() == p0 + 6 + dt_bytes(dv.FactoryDefault).len()
                    + dt_bytes(dv.Current).len()
            })),
{
    proof {
        assert forall|dv: PropInfoV| #![trigger prop_info_bytes(dv)]
            prop_info_encodable(dv) && p0 + prop_info_bytes(dv).len() <= b.len() && b.subrange(
                p0,
                p0 + prop_info_bytes(dv).len(),
            ) == prop_info_bytes(dv) implies prop_info_laid_out(b, p0, dv) by {
            lemma_prop_info_fields(b, p0, dv);
        }
    }
    let fPropertyCode = match cur.read_ptp_u16() {
        Ok(v) => v,
        Err(e) => {
            return Err(e);
        },
    };
    let fDataType = match cur.read_ptp_u16() {
        Ok(v) => v,
        Err(e) => {
            return Err(e);
        },
    };
    let fGetSet = match cur.read_ptp_u8() {
        Ok(v) => v,
        Err(e) => {
            return Err(e);
        },
    };
    let fIsEnable = match cur.read_ptp_u8() {
        Ok(v) => v,
        Err(e) => {
            return Err(e);
        },
    };
    let fFactoryDefault = match PtpDataType::read_type(fDataType, cur) {
        Ok(v) => v,
        Err(e) => {
            return Err(e);
        },
    };
    let fCurrent = match PtpDataType::read_type(fDataType, cur) {
        Ok(v) => v,
        Err(e) => {
            return Err(e);
        },
    };
    Ok((fPropertyCode, fDataType, fGetSet, fIsEnable, fFactoryDefault, fCurrent))
}


/// Read the values of an enumerated form: `count` values of the
/// datatype `kind`, standing at the reader where the surrounding
/// buffer's canonical descriptor encodings put them.
#[verifier::rlimit(100)]
#[verifier::spinoff_prover]
fn read_enum_values(
    cur: &mut Reader,
    kind: u16,
    count: u16,
    Ghost(b): Ghost<Seq<u8>>,
    Ghost(p0): Ghost<int>,
    Ghost(qf): Ghost<int>,
) -> (r: Result<Vec<PtpDataType>, Error>)
    requires
        old(cur).wf(),
        old(cur).bytes() == b,
        old(cur).position() == qf + 3,
        forall|dv: PropInfoV| #![trigger prop_info_bytes(dv)]
            prop_info_encodable(dv) && p0 + prop_info_bytes(dv).len() <= b.len() && b.subrange(
                p0,
                p0 + prop_info_bytes(dv).len(),
            ) == prop_info_bytes(dv) ==> ({
                let a = dv.Form->Enumeration_array;
                &&& prop_info_laid_out(b, p0, dv)
                &&& dv.Form is Enumeration
                &&& kind == dv.DataType
                &&& count == a.len()
                &&& qf == p0 + 6 + dt_bytes(dv.FactoryDefault).len() + dt_bytes(dv.Current).len()
            }),
    ensures
        final(cur).wf(),
        final(cur).bytes() == b,
        r is Err ==> r->Err_0 == Error::Malformed(MalformedKind::UnexpectedEnd) || r->Err_0
            == Error::Malformed(MalformedKind::InvalidUtf16),
        r is Err ==> (forall|dv: PropInfoV| #![trigger prop_info_bytes(dv)]
            prop_info_encodable(dv) && p0 + prop_info_bytes(dv).len() <= b.len() && b.subrange(
                p0,
                p0 + prop_info_bytes(dv).len(),
            ) == prop_info_bytes(dv) ==> false),
        r is Ok ==> dts_end(kind, count as nat, b, qf + 3) == Some(final(cur).position()),
        r is Ok ==> (forall|dv: PropInfoV| #![trigger prop_info_bytes(dv)]
            prop_info_encodable(dv) && p0 + prop_info_bytes(dv).len() <= b.len() && b.subrange(
                p0,
                p0 + prop_info_bytes(dv).len(),
            ) == prop_info_bytes(dv) ==> ({
                let a = dv.Form->Enumeration_array;
                &&& r->Ok_0@.len() == a.len()
                &&& (forall|j: int| 0 <= j < a.len() ==> (#[trigger] r->Ok_0@[j])@ == a[j])
                &&& final(cur).position() == qf + 3 + dts_len(a, a.len() as int)
            })),
{
    let ghost qstart = cur.position();
    let mut arr: Vec<PtpDataType> = Vec::new();
    let mut i: u16 = 0;
    while i < count
        invariant
            cur.wf(),
            cur.bytes() == b,
            qstart == qf + 3,
            i <= count,
            dts_end(kind, (count - i) as nat, b, cur.position()) == dts_end(
                kind,
                count as nat,
                b,
                qstart,
            ),
            forall|dv: PropInfoV| #![trigger prop_info_bytes(dv)]
                prop_info_encodable(dv) && p0 + prop_info_bytes(dv).len() <= b.len()
                    && b.subrange(p0, p0 + prop_info_bytes(dv).len()) == prop_info_bytes(dv)
                    ==> ({
                    let a = dv.Form->Enumeration_array;
                    &&& prop_info_laid_out(b, p0, dv)
                    &&& dv.Form is Enumeration
                    &&& kind == dv.DataType
                    &&& count == a.len()
                    &&& qf == p0 + 6 + dt_bytes(dv.FactoryDefault).len() + dt_bytes(
                        dv.Current,
                    ).len()
                    &&& arr@.len() == i
                    &&& (forall|j: int| 0 <= j < i ==> (#[trigger] arr@[j])@ == a[j])
                    &&& cur.position() == qf + 3 + dts_len(a, i as int)
                }),
        decreases count - i,
    {
        let ghost qv = cur.position();
        proof {
            assert forall|dv: PropInfoV| #![trigger prop_info_bytes(dv)]
                prop_info_encodable(dv) && p0 + prop_info_bytes(dv).len() <= b.len()
                    && b.subrange(p0, p0 + prop_info_bytes(dv).len()) == prop_info_bytes(dv)
                    implies ({
                    let a = dv.Form->Enumeration_array;
                    &&& b.subrange(qv, qv + dt_bytes(a[i as int]).len()) == dt_bytes(a[i as int])
                    &&& qv + dt_bytes(a[i as int]).len() <= b.len()
                    &&& dt_code(a[i as int]) == kind
                    &&& dt_encodable(a[i as int])
                }) by {
                let a = dv.Form->Enumeration_array;
                lemma_dts_len_mono(a, i as int + 1, a.len() as int);
                assert(b.subrange(
                    qf + 3 + dts_len(a, i as int),
                    qf + 3 + dts_len(a, i as int + 1),
                ) == dt_bytes(a[i as int]));
            }
        }
        let v = match PtpDataType::read_type(kind, cur) {
            Ok(v) => v,
            Err(e) => {
                proof {
                    assert forall|dv: PropInfoV| #![trigger prop_info_bytes(dv)]
                        prop_info_encodable(dv) && p0 + prop_info_bytes(dv).len() <= b.len()
                            && b.subrange(p0, p0 + prop_info_bytes(dv).len())
                            == prop_info_bytes(dv) implies false by {
                        let a = dv.Form->Enumeration_array;
                        assert(b.subrange(qv, qv + dt_bytes(a[i as int]).len()) == dt_bytes(
                            a[i as int],
                        ));
                    }
                }
                return Err(e);
            },
        };
        arr.push(v);
        proof {
            assert((count - i) as nat == 1 + (count - (i + 1)) as nat);
            assert(dts_end(kind, (count - i) as nat, b, qv) == dts_end(
                kind,
                (count - (i + 1)) as nat,
                b,
                cur.position(),
            ));
            assert forall|dv: PropInfoV| #![trigger prop_info_bytes(dv)]
                prop_info_encodable(dv) && p0 + prop_info_bytes(dv).len() <= b.len()
                    && b.subrange(p0, p0 + prop_info_bytes(dv).len()) == prop_info_bytes(dv)
                    implies ({
                    let a = dv.Form->Enumeration_array;
                    &&& arr@.len() == i + 1
                    &&& (forall|j: int| 0 <= j < i + 1 ==> (#[trigger] arr@[j])@ == a[j])
                    &&& cur.position() == qf + 3 + dts_len(a, i as int + 1)
                }) by {
                let a = dv.Form->Enumeration_array;
                assert(v@ == a[i as int]);
                assert forall|j: int| 0 <= j < i + 1 implies (#[trigger] arr@[j])@ == a[j] by {
                    if j < i {
                        assert(arr@[j] == arr@.take(i as int)[j]);
                    }
                }
            }
        }
        i = i + 1;
    }
    proof {
        assert(dts_end(kind, (count - i) as nat, b, cur.position()) == Some(cur.position()));
    }
    Ok(arr)
}

impl PtpPropInfo {
    /// Parse one device property descriptor from the reader.  Whenever
    /// the canonical encoding of a descriptor sits at the reader's
    /// position — whatever its form — exactly that descriptor comes
    /// back; a flag outside the three known forms yields the flag-only
    /// form, and a structurally truncated buffer is rejected.
    #[verifier::rlimit(100)]
    #[verifier::spinoff_prover]
    pub fn decode(cur: &mut Reader) -> (r: Result<PtpPropInfo, Error>)
        requires
            old(cur).wf(),
        ensures
            final(cur).wf(),
            final(cur).bytes() == old(cur).bytes(),
            r is Err ==> r->Err_0 == Error::Malformed(MalformedKind::UnexpectedEnd) || r->Err_0
                == Error::Malformed(MalformedKind::InvalidUtf16),
            prop_info_end(old(cur).bytes(), old(cur).position()) is None ==> r is Err,
            r is Ok ==> prop_info_end(old(cur).bytes(), old(cur).position()) == Some(
                final(cur).position(),
            ),
            r is Ok ==> ({
                let b = old(cur).bytes();
                let fp = prop_info_form_pos(b, old(cur).position());
                &&& fp is Some
                &&& ((b[fp->0] == 0 || b[fp->0] > 2) ==> r->Ok_0.Form is NoForm
                    && final(cur).position() == fp->0 + 1)
                &&& (b[fp->0] == 1 ==> r->Ok_0.Form is Range)
                &&& (b[fp->0] == 2 ==> r->Ok_0.Form is Enumeration)
            }),
            forall|dv: PropInfoV| #![trigger prop_info_bytes(dv)]
                prop_info_encodable(dv) && old(cur).position()
                    + prop_info_bytes(dv).len() <= old(cur).bytes().len() && old(
                    cur,
                ).bytes().subrange(
                    old(cur).position(),
                    old(cur).position() + prop_info_bytes(dv).len(),
                ) == prop_info_bytes(dv) ==> r is Ok && r->Ok_0@ == dv && final(cur).position()
                    == old(cur).position() + prop_info_bytes(dv).len(),
    {
        let ghost b = old(cur).bytes();
        let ghost p0 = old(cur).position();
        let prefix = match read_prop_prefix(cur, Ghost(b), Ghost(p0)) {
            Ok(v) => v,
            Err(e) => {
                return Err(e);
            },
        };
        let (fPropertyCode, fDataType, fGetSet, fIsEnable, fFactoryDefault, fCurrent) = prefix;
        let ghost qf = cur.position();
        let flag = match cur.read_ptp_u8() {
            Ok(v) => v,
            Err(e) => {
                proof {
                    assert forall|dv: PropInfoV| #![trigger prop_info_bytes(dv)]
                        prop_info_encodable(dv) && p0 + prop_info_bytes(
                            dv,
                        ).len() <= b.len() && b.subrange(p0, p0 + prop_info_bytes(dv).len())
                            == prop_info_bytes(dv) implies false by {
                        assert(prop_info_laid_out(b, p0, dv));
                    }
                }
                return Err(e);
            },
        };
        proof {
            assert forall|dv: PropInfoV| #![trigger prop_info_bytes(dv)]
                prop_info_encodable(dv) && p0 + prop_info_bytes(
                            dv,
                        ).len() <= b.len() && b.subrange(p0, p0 + prop_info_bytes(dv).len())
                            == prop_info_bytes(dv) implies (dv.Form is NoForm ==> flag == 0) && (dv.Form is Range ==> flag == 1) && (
                            dv.Form is Enumeration ==> flag == 2) && cur.position() == p0 + 7 + dt_bytes(dv.FactoryDefault).len() + dt_bytes(dv.Current).len() by {
                assert(prop_info_laid_out(b, p0, dv));
            }
        }
        if flag == 1 {
            let fMin = match PtpDataType::read_type(fDataType, cur) {
                Ok(v) => v,
                Err(e) => {
                    proof {
                    assert forall|dv: PropInfoV| #![trigger prop_info_bytes(dv)]
                        prop_info_encodable(dv) && p0 + prop_info_bytes(
                            dv,
                        ).len() <= b.len() && b.subrange(p0, p0 + prop_info_bytes(dv).len())
                            == prop_info_bytes(dv) implies false by {
                        assert(prop_info_laid_out(b, p0, dv));
                    }
                }
                    return Err(e);
                },
            };
        proof {
            assert forall|dv: PropInfoV| #![trigger prop_info_bytes(dv)]
                prop_info_encodable(dv) && p0 + prop_info_bytes(
                            dv,
                        ).len() <= b.len() && b.subrange(p0, p0 + prop_info_bytes(dv).len())
                            == prop_info_bytes(dv) implies dv.Form is Range && fMin@ == dv.Form->Range_minValue by {
                assert(prop_info_laid_out(b, p0, dv));
            }
        }
            let ghost qa = cur.position();
            let fMax = match PtpDataType::read_type(fDataType, cur) {
                Ok(v) => v,
                Err(e) => {
                    proof {
                    assert forall|dv: PropInfoV| #![trigger prop_info_bytes(dv)]
                        prop_info_encodable(dv) && p0 + prop_info_bytes(
                            dv,
                        ).len() <= b.len() && b.subrange(p0, p0 + prop_info_bytes(dv).len())
                            == prop_info_bytes(dv) implies false by {
                        assert(prop_info_laid_out(b, p0, dv));
                    }
                }
                    return Err(e);
                },
            };
        proof {
            assert forall|dv: PropInfoV| #![trigger prop_info_bytes(dv)]
                prop_info_encodable(dv) && p0 + prop_info_bytes(
                            dv,
                        ).len() <= b.len() && b.subrange(p0, p0 + prop_info_bytes(dv).len())
                            == prop_info_bytes(dv) implies dv.Form is Range && fMax@ == dv.Form->Range_maxValue by {
                assert(prop_info_laid_out(b, p0, dv));
            }
        }
            let ghost qb = cur.position();
            let fStep = match PtpDataType::read_type(fDataType, cur) {
                Ok(v) => v,
                Err(e) => {
                    proof {
                    assert forall|dv: PropInfoV| #![trigger prop_info_bytes(dv)]
                        prop_info_encodable(dv) && p0 + prop_info_bytes(
                            dv,
                        ).len() <= b.len() && b.subrange(p0, p0 + prop_info_bytes(dv).len())
                            == prop_info_bytes(dv) implies false by {
                        assert(prop_info_laid_out(b, p0, dv));
                    }
                }
                    return Err(e);
                },
            };
            let ret = PtpPropInfo {
                PropertyCode: fPropertyCode,
                DataType: fDataType,
                GetSet: fGetSet,
                IsEnable: fIsEnable,
                FactoryDefault: fFactoryDefault,
                Current: fCurrent,
                Form: PtpFormData::Range { minValue: fMin, maxValue: fMax, step: fStep },
            };
            proof {
                assert(dt_end(fDataType, b, qb) == Some(cur.position()));
                assert(dts_end(fDataType, 0nat, b, cur.position()) == Some(cur.position()));
                assert(dts_end(fDataType, 1nat, b, qb) == Some(cur.position()));
                assert(dts_end(fDataType, 2nat, b, qa) == Some(cur.position()));
                assert(dts_end(fDataType, 3nat, b, qf + 1) == Some(cur.position()));
                assert(form_end(fDataType, b, qf) == Some(cur.position()));
                assert(prop_info_form_pos(b, p0) == Some(qf));
                assert(prop_info_end(b, p0) == Some(cur.position()));
            }
        proof {
            assert forall|dv: PropInfoV| #![trigger prop_info_bytes(dv)]
                prop_info_encodable(dv) && p0 + prop_info_bytes(
                            dv,
                        ).len() <= b.len() && b.subrange(p0, p0 + prop_info_bytes(dv).len())
                            == prop_info_bytes(dv) implies ret@ == dv && cur.position() == p0 + prop_info_bytes(dv).len() by {
                assert(prop_info_laid_out(b, p0, dv));
            }
        }
            Ok(ret)
        } else if flag == 2 {
            let count = match cur.read_ptp_u16() {
                Ok(v) => v,
                Err(e) => {
                    proof {
                        assert forall|dv: PropInfoV| #![trigger prop_info_bytes(dv)]
                            prop_info_encodable(dv) && p0 + prop_info_bytes(
                                dv,
                            ).len() <= b.len() && b.subrange(p0, p0 + prop_info_bytes(dv).len())
                                == prop_info_bytes(dv) implies false by {
                            assert(prop_info_laid_out(b, p0, dv));
                            if dv.Form is Enumeration {
                                let a = dv.Form->Enumeration_array;
                                lemma_dts_len_mono(a, 0, a.len() as int);
                            }
                        }
                    }
                    return Err(e);
                },
            };
            let ghost qstart = cur.position();
            proof {
                assert(form_end(fDataType, b, qf) == dts_end(fDataType, count as nat, b, qstart));
                assert(prop_info_end(b, p0) == dts_end(fDataType, count as nat, b, qstart));
                assert forall|dv: PropInfoV| #![trigger prop_info_bytes(dv)]
                    prop_info_encodable(dv) && p0 + prop_info_bytes(dv).len() <= b.len()
                        && b.subrange(p0, p0 + prop_info_bytes(dv).len()) == prop_info_bytes(dv) implies ({
                        let a = dv.Form->Enumeration_array;
                        &&& prop_info_laid_out(b, p0, dv)
                        &&& dv.Form is Enumeration
                        &&& fDataType == dv.DataType
                        &&& count == a.len()
                        &&& qf == p0 + 6 + dt_bytes(dv.FactoryDefault).len() + dt_bytes(
                            dv.Current,
                        ).len()
                    }) by {
                    assert(prop_info_laid_out(b, p0, dv));
                }
            }
            let arr = match read_enum_values(
                cur,
                fDataType,
                count,
                Ghost(b),
                Ghost(p0),
                Ghost(qf),
            ) {
                Ok(v) => v,
                Err(e) => {
                    return Err(e);
                },
            };
            let ret = PtpPropInfo {
                PropertyCode: fPropertyCode,
                DataType: fDataType,
                GetSet: fGetSet,
                IsEnable: fIsEnable,
                FactoryDefault: fFactoryDefault,
                Current: fCurrent,
                Form: PtpFormData::Enumeration { array: arr },
            };
            proof {
                assert(prop_info_form_pos(b, p0) == Some(qf));
                assert(prop_info_end(b, p0) == Some(cur.position()));
                assert forall|dv: PropInfoV| #![trigger prop_info_bytes(dv)]
                    prop_info_encodable(dv) && p0 + prop_info_bytes(dv).len() <= b.len()
                        && b.subrange(p0, p0 + prop_info_bytes(dv).len()) == prop_info_bytes(dv) implies ret@ == dv && cur.position() == p0
                    + prop_info_bytes(dv).len() by {
                    let a = dv.Form->Enumeration_array;
                    assert(prop_info_laid_out(b, p0, dv));
                    assert(Seq::new(arr@.len(), |j: int| arr@[j]@) =~= a);
                    assert(ret@.Form == dv.Form);
                }
            }
            Ok(ret)
        } else {
            let ret = PtpPropInfo {
                PropertyCode: fPropertyCode,
                DataType: fDataType,
                GetSet: fGetSet,
                IsEnable: fIsEnable,
                FactoryDefault: fFactoryDefault,
                Current: fCurrent,
                Form: PtpFormData::NoForm,
            };
            proof {
                assert(form_end(fDataType, b, qf) == Some(qf + 1));
                assert(prop_info_form_pos(b, p0) == Some(qf));
                assert(prop_info_end(b, p0) == Some(cur.position()));
            }
        proof {
            assert forall|dv: PropInfoV| #![trigger prop_info_bytes(dv)]
                prop_info_encodable(dv) && p0 + prop_info_bytes(
                            dv,
                        ).len() <= b.len() && b.subrange(p0, p0 + prop_info_bytes(dv).len())
                            == prop_info_bytes(dv) implies flag == 0 && ret@ == dv && cur.position() == p0 + prop_info_bytes(dv).len() by {
                assert(prop_info_laid_out(b, p0, dv));
            }
        }
            Ok(ret)
        }
    }
}


/// The mathematical value of a `PtpObjectProperty`.
pub struct ObjectPropertyV {
    pub ObjectHandle: u32,
    pub PropertyCode: u16,
    pub DataType: u16,
    pub Value: DtValue,
}

/// One property of one object: the handle, the property code, the
/// datatype, and the value.
#[derive(Debug, PartialEq)]
pub struct PtpObjectProperty {
    pub ObjectHandle: u32,
    pub PropertyCode: u16,
    pub DataType: u16,
    pub Value: PtpDataType,
}

impl View for PtpObjectProperty {
    type V = ObjectPropertyV;

    open spec fn view(&self) -> ObjectPropertyV {
        ObjectPropertyV {
            ObjectHandle: self.ObjectHandle,
            PropertyCode: self.PropertyCode,
            DataType: self.DataType,
            Value: self.Value@,
        }
    }
}

/// The canonical wire form of one object property.
pub open spec fn object_property_bytes(dv: ObjectPropertyV) -> Seq<u8> {
    le32(dv.ObjectHandle) + (le16(dv.PropertyCode) + (le16(dv.DataType) + dt_bytes(dv.Value)))
}

/// The value carries the record's own datatype and fits its prefixes.
pub open spec fn object_property_encodable(dv: ObjectPropertyV) -> bool {
    dt_code(dv.Value) == dv.DataType && dt_encodable(dv.Value)
}

/// Where an object property's canonical encoding sits at `p` in `b`,
/// every field stands at its offset with its encoded value.
pub open spec fn object_property_laid_out(b: Seq<u8>, p: int, dv: ObjectPropertyV) -> bool {
    &&& object_property_bytes(dv).len() == 8 + dt_bytes(dv.Value).len()
    &&& u32_at(b, p) == dv.ObjectHandle
    &&& u16_at(b, p + 4) == dv.PropertyCode
    &&& u16_at(b, p + 6) == dv.DataType
    &&& b.subrange(p + 8, p + 8 + dt_bytes(dv.Value).len()) == dt_bytes(dv.Value)
}

/// The layout fact holds wherever the canonical encoding sits.
pub proof fn lemma_object_property_fields(b: Seq<u8>, p: int, dv: ObjectPropertyV)
    requires
        object_property_encodable(dv),
        0 <= p,
        p + object_property_bytes(dv).len() <= b.len(),
        b.subrange(p, p + object_property_bytes(dv).len()) == object_property_bytes(dv),
    ensures
        object_property_laid_out(b, p, dv),
{
    lemma_le32(dv.ObjectHandle);
    lemma_le16(dv.PropertyCode);
    lemma_le16(dv.DataType);
    let ev = dt_bytes(dv.Value);
    let total = object_property_bytes(dv).len();
    assert(b.subrange(p, p + total) == object_property_bytes(dv));
    lemma_concat_parts(b, p, le32(dv.ObjectHandle), le16(dv.PropertyCode) + (le16(dv.DataType)
        + ev));
    lemma_concat_parts(b, p + 4, le16(dv.PropertyCode), le16(dv.DataType) + ev);
    lemma_concat_parts(b, p + 6, le16(dv.DataType), ev);
    assert(u32_at(b, p) == dv.ObjectHandle) by {
        assert(b.subrange(p, p + 4) == le32(dv.ObjectHandle));
        vstd::bytes::lemma_auto_spec_u32_to_from_le_bytes();
    }
    assert(u16_at(b, p + 4) == dv.PropertyCode) by {
        assert(b.subrange(p + 4, p + 6) == le16(dv.PropertyCode));
        vstd::bytes::lemma_auto_spec_u16_to_from_le_bytes();
    }
    assert(u16_at(b, p + 6) == dv.DataType) by {
        assert(b.subrange(p + 6, p + 8) == le16(dv.DataType));
        vstd::bytes::lemma_auto_spec_u16_to_from_le_bytes();
    }
}

impl PtpObjectProperty {
    /// Parse one object property from the reader.  Whenever a record's
    /// canonical encoding sits at the reader's position, exactly that
    /// record comes back.
    pub fn decode(cur: &mut Reader) -> (r: Result<PtpObjectProperty, Error>)
        requires
            old(cur).wf(),
        ensures
            final(cur).wf(),
            final(cur).bytes() == old(cur).bytes(),
            r is Err ==> r->Err_0 == Error::Malformed(MalformedKind::UnexpectedEnd) || r->Err_0
                == Error::Malformed(MalformedKind::InvalidUtf16),
            object_property_end(old(cur).bytes(), old(cur).position()) is None ==> r is Err,
            r is Ok ==> object_property_end(old(cur).bytes(), old(cur).position()) == Some(
                final(cur).position(),
            ),
            forall|dv: ObjectPropertyV| #![trigger object_property_bytes(dv)]
                object_property_encodable(dv) && old(cur).position() + object_property_bytes(
                    dv,
                ).len() <= old(cur).bytes().len() && old(cur).bytes().subrange(
                    old(cur).position(),
                    old(cur).position() + object_property_bytes(dv).len(),
                ) == object_property_bytes(dv) ==> r is Ok && r->Ok_0@ == dv
                    && final(cur).position() == old(cur).position() + object_property_bytes(
                    dv,
                ).len(),
    {
        let ghost b = old(cur).bytes();
        let ghost p0 = old(cur).position();
        proof {
            assert forall|dv: ObjectPropertyV| #![trigger object_property_bytes(dv)]
                object_property_encodable(dv) && p0 + object_property_bytes(dv).len() <= b.len()
                            && b.subrange(p0, p0 + object_property_bytes(dv).len())
                            == object_property_bytes(dv) implies object_property_laid_out(b, p0, dv) by {
                lemma_object_property_fields(b, p0, dv);
            }
        }
        let fObjectHandle = match cur.read_ptp_u32() {
            Ok(v) => v,
            Err(e) => {
                proof {
                    assert forall|dv: ObjectPropertyV| #![trigger object_property_bytes(dv)]
                        object_property_encodable(dv) && p0 + object_property_bytes(dv).len() <= b.len()
                            && b.subrange(p0, p0 + object_property_bytes(dv).len())
                            == object_property_bytes(dv) implies false by {
                        assert(object_property_laid_out(b, p0, dv));
                    }
                }
                return Err(e);
            },
        };
        let fPropertyCode = match cur.read_ptp_u16() {
            Ok(v) => v,
            Err(e) => {
                proof {
                    assert forall|dv: ObjectPropertyV| #![trigger object_property_bytes(dv)]
                        object_property_encodable(dv) && p0 + object_property_bytes(dv).len() <= b.len()
                            && b.subrange(p0, p0 + object_property_bytes(dv).len())
                            == object_property_bytes(dv) implies false by {
                        assert(object_property_laid_out(b, p0, dv));
                    }
                }
                return Err(e);
            },
        };
        let fDataType = match cur.read_ptp_u16() {
            Ok(v) => v,
            Err(e) => {
                proof {
                    assert forall|dv: ObjectPropertyV| #![trigger object_property_bytes(dv)]
                        object_property_encodable(dv) && p0 + object_property_bytes(dv).len() <= b.len()
                            && b.subrange(p0, p0 + object_property_bytes(dv).len())
                            == object_property_bytes(dv) implies false by {
                        assert(object_property_laid_out(b, p0, dv));
                    }
                }
                return Err(e);
            },
        };
        let fValue = match PtpDataType::read_type(fDataType, cur) {
            Ok(v) => v,
            Err(e) => {
                proof {
                    assert forall|dv: ObjectPropertyV| #![trigger object_property_bytes(dv)]
                        object_property_encodable(dv) && p0 + object_property_bytes(dv).len() <= b.len()
                            && b.subrange(p0, p0 + object_property_bytes(dv).len())
                            == object_property_bytes(dv) implies false by {
                        assert(object_property_laid_out(b, p0, dv));
                    }
                }
                return Err(e);
            },
        };
        proof {
            assert(object_property_end(b, p0) == Some(cur.position()));
        }
        let ret = PtpObjectProperty {
            ObjectHandle: fObjectHandle,
            PropertyCode: fPropertyCode,
            DataType: fDataType,
            Value: fValue,
        };
        proof {
            assert forall|dv: ObjectPropertyV| #![trigger object_property_bytes(dv)]
                object_property_encodable(dv) && p0 + object_property_bytes(dv).len() <= b.len()
                            && b.subrange(p0, p0 + object_property_bytes(dv).len())
                            == object_property_bytes(dv) implies ret@ == dv && cur.position() == p0 + object_property_bytes(
                dv,
            ).len() by {
                assert(object_property_laid_out(b, p0, dv));
            }
        }
        Ok(ret)
    }
}


/// The mathematical value of a `PtpObjectPropDesc`.
pub struct ObjectPropDescV {
    pub PropertyCode: u16,
    pub DataType: u16,
    pub GetSet: u8,
    pub FactoryDefault: DtValue,
    pub GroupCode: u32,
    pub Form: FormV,
}

/// An object property descriptor: like the device property descriptor
/// but without the enable flag, with a group code before the form, and
/// with a default value but no current one.
#[derive(Debug, PartialEq)]
pub struct PtpObjectPropDesc {
    pub PropertyCode: u16,
    pub DataType: u16,
    pub GetSet: u8,
    pub FactoryDefault: PtpDataType,
    pub GroupCode: u32,
    pub Form: PtpFormData,
}

impl View for PtpObjectPropDesc {
    type V = ObjectPropDescV;

    open spec fn view(&self) -> ObjectPropDescV {
        ObjectPropDescV {
            PropertyCode: self.PropertyCode,
            DataType: self.DataType,
            GetSet: self.GetSet,
            FactoryDefault: self.FactoryDefault@,
            GroupCode: self.GroupCode,
            Form: self.Form@,
        }
    }
}

/// The canonical wire form of an object property descriptor.
pub open spec fn object_prop_desc_bytes(dv: ObjectPropDescV) -> Seq<u8> {
    le16(dv.PropertyCode) + (le16(dv.DataType) + (seq![dv.GetSet] + (dt_bytes(dv.FactoryDefault)
        + (le32(dv.GroupCode) + form_bytes(dv.Form)))))
}

/// The values of the descriptor carry the descriptor's own datatype and
/// fit their length prefixes.
pub open spec fn object_prop_desc_encodable(dv: ObjectPropDescV) -> bool {
    &&& dt_code(dv.FactoryDefault) == dv.DataType
    &&& dt_encodable(dv.FactoryDefault)
    &&& match dv.Form {
        FormV::NoForm => true,
        FormV::Range { minValue, maxValue, step } => dt_code(minValue) == dv.DataType
            && dt_encodable(minValue) && dt_code(maxValue) == dv.DataType && dt_encodable(maxValue)
            && dt_code(step) == dv.DataType && dt_encodable(step),
        FormV::Enumeration { array } => array.len() <= 0xFFFF && forall|i: int|
            0 <= i < array.len() ==> dt_code(#[trigger] array[i]) == dv.DataType && dt_encodable(
                array[i],
            ),
    }
}


/// Where a descriptor's canonical encoding sits at `p` in `b`, every
/// field stands at its offset with its encoded value; the form region
/// is pinned down for the flag-only and range forms.
pub open spec fn object_prop_desc_laid_out(b: Seq<u8>, p: int, dv: ObjectPropDescV) -> bool {
    let o3 = p + 5;
    let o4 = o3 + dt_bytes(dv.FactoryDefault).len();
    let o6 = o4 + 4;
    &&& object_prop_desc_bytes(dv).len() == 9 + dt_bytes(dv.FactoryDefault).len() + form_bytes(
        dv.Form,
    ).len()
    &&& u16_at(b, p) == dv.PropertyCode
    &&& u16_at(b, p + 2) == dv.DataType
    &&& b[p + 4] == dv.GetSet
    &&& b.subrange(o3, o4) == dt_bytes(dv.FactoryDefault)
    &&& u32_at(b, o4) == dv.GroupCode
    &&& (dv.Form is NoForm ==> b[o6] == 0 && form_bytes(dv.Form).len() == 1)
    &&& (dv.Form is Range ==> {
        let m = dv.Form->Range_minValue;
        let x = dv.Form->Range_maxValue;
        let s = dv.Form->Range_step;
        let o7 = o6 + 1;
        let o8 = o7 + dt_bytes(m).len();
        let o9 = o8 + dt_bytes(x).len();
        &&& b[o6] == 1
        &&& form_bytes(dv.Form).len() == 1 + dt_bytes(m).len() + dt_bytes(x).len() + dt_bytes(
            s,
        ).len()
        &&& b.subrange(o7, o8) == dt_bytes(m)
        &&& b.subrange(o8, o9) == dt_bytes(x)
        &&& b.subrange(o9, o9 + dt_bytes(s).len()) == dt_bytes(s)
    })
    &&& (dv.Form is Enumeration ==> {
        let a = dv.Form->Enumeration_array;
        &&& b[o6] == 2
        &&& u16_at(b, o6 + 1) == a.len()
        &&& form_bytes(dv.Form).len() == 3 + dts_len(a, a.len() as int)
        &&& forall|k: int|
            0 <= k < a.len() ==> b.subrange(
                o6 + 3 + dts_len(a, k),
                o6 + 3 + dts_len(a, k + 1),
            ) == dt_bytes(#[trigger] a[k])
    })
}

/// The layout fact holds wherever the canonical encoding of a
/// flag-only or range-form descriptor sits.
pub proof fn lemma_object_prop_desc_fields(b: Seq<u8>, p: int, dv: ObjectPropDescV)
    requires
        object_prop_desc_encodable(dv),
        !(dv.Form is Enumeration),
        0 <= p,
        p + object_prop_desc_bytes(dv).len() <= b.len(),
        b.subrange(p, p + object_prop_desc_bytes(dv).len()) == object_prop_desc_bytes(dv),
    ensures
        object_prop_desc_laid_out(b, p, dv),
{
    lemma_le16(dv.PropertyCode);
    lemma_le16(dv.DataType);
    lemma_le32(dv.GroupCode);
    let efd = dt_bytes(dv.FactoryDefault);
    let efo = form_bytes(dv.Form);
    let total = object_prop_desc_bytes(dv).len();
    assert(b.subrange(p, p + total) == object_prop_desc_bytes(dv));
    lemma_concat_parts(
        b,
        p,
        le16(dv.PropertyCode),
        le16(dv.DataType) + (seq![dv.GetSet] + (efd + (le32(dv.GroupCode) + efo))),
    );
    lemma_concat_parts(
        b,
        p + 2,
        le16(dv.DataType),
        seq![dv.GetSet] + (efd + (le32(dv.GroupCode) + efo)),
    );
    lemma_concat_parts(b, p + 4, seq![dv.GetSet], efd + (le32(dv.GroupCode) + efo));
    lemma_concat_parts(b, p + 5, efd, le32(dv.GroupCode) + efo);
    lemma_concat_parts(b, p + 5 + efd.len(), le32(dv.GroupCode), efo);
    assert(u16_at(b, p) == dv.PropertyCode) by {
        assert(b.subrange(p, p + 2) == le16(dv.PropertyCode));
        vstd::bytes::lemma_auto_spec_u16_to_from_le_bytes();
    }
    assert(u16_at(b, p + 2) == dv.DataType) by {
        assert(b.subrange(p + 2, p + 4) == le16(dv.DataType));
        vstd::bytes::lemma_auto_spec_u16_to_from_le_bytes();
    }
    assert(b[p + 4] == b.subrange(p + 4, p + 5)[0]);
    let o4 = p + 5 + efd.len();
    assert(u32_at(b, o4) == dv.GroupCode) by {
        assert(b.subrange(o4, o4 + 4) == le32(dv.GroupCode));
        vstd::bytes::lemma_auto_spec_u32_to_from_le_bytes();
    }
    let o6 = o4 + 4;
    assert(b.subrange(o6, o6 + efo.len()) == efo);
    if dv.Form is NoForm {
        assert(b[o6] == b.subrange(o6, o6 + efo.len())[0]);
    }
    if dv.Form is Range {
        let m = dv.Form->Range_minValue;
        let x = dv.Form->Range_maxValue;
        let s = dv.Form->Range_step;
        assert(efo == seq![1u8] + (dt_bytes(m) + (dt_bytes(x) + dt_bytes(s))));
        lemma_concat_parts(b, o6, seq![1u8], dt_bytes(m) + (dt_bytes(x) + dt_bytes(s)));
        lemma_concat_parts(b, o6 + 1, dt_bytes(m), dt_bytes(x) + dt_bytes(s));
        lemma_concat_parts(b, o6 + 1 + dt_bytes(m).len(), dt_bytes(x), dt_bytes(s));
        assert(b[o6] == b.subrange(o6, o6 + 1)[0]);
    }
    if dv.Form is Enumeration {
        let a = dv.Form->Enumeration_array;
        let fa = |v: DtValue| dt_bytes(v);
        lemma_le16(a.len() as u16);
        assert(efo == seq![2u8] + (le16(a.len() as u16) + concat_bytes(a, fa)));
        lemma_concat_parts(b, o6, seq![2u8], le16(a.len() as u16) + concat_bytes(a, fa));
        lemma_concat_parts(b, o6 + 1, le16(a.len() as u16), concat_bytes(a, fa));
        assert(b[o6] == b.subrange(o6, o6 + 1)[0]);
        assert(u16_at(b, o6 + 1) == a.len() as u16) by {
            assert(b.subrange(o6 + 1, o6 + 3) == le16(a.len() as u16));
            vstd::bytes::lemma_auto_spec_u16_to_from_le_bytes();
        }
        lemma_dts_region(b, o6 + 3, a);
    }
}

impl PtpObjectPropDesc {
    /// Parse one object property descriptor from the reader.  Whenever
    /// the canonical encoding of a descriptor with a flag-only or range
    /// form sits at the reader's position, exactly that descriptor comes
    /// back; an enumerated form is parsed but not held to this law.
    #[verifier::rlimit(100)]
    #[verifier::spinoff_prover]
    pub fn decode(cur: &mut Reader) -> (r: Result<PtpObjectPropDesc, Error>)
        requires
            old(cur).wf(),
        ensures
            final(cur).wf(),
            final(cur).bytes() == old(cur).bytes(),
            r is Err ==> r->Err_0 == Error::Malformed(MalformedKind::UnexpectedEnd) || r->Err_0
                == Error::Malformed(MalformedKind::InvalidUtf16),
            object_prop_desc_end(old(cur).bytes(), old(cur).position()) is None ==> r is Err,
            r is Ok ==> object_prop_desc_end(old(cur).bytes(), old(cur).position()) == Some(
                final(cur).position(),
            ),
            r is Ok ==> ({
                let b = old(cur).bytes();
                let fp = object_prop_desc_form_pos(b, old(cur).position());
                &&& fp is Some
                &&& ((b[fp->0] == 0 || b[fp->0] > 2) ==> r->Ok_0.Form is NoForm
                    && final(cur).position() == fp->0 + 1)
                &&& (b[fp->0] == 1 ==> r->Ok_0.Form is Range)
                &&& (b[fp->0] == 2 ==> r->Ok_0.Form is Enumeration)
            }),
            forall|dv: ObjectPropDescV| #![trigger object_prop_desc_bytes(dv)]
                object_prop_desc_encodable(dv) && !(dv.Form is Enumeration) && old(cur).position()
                    + object_prop_desc_bytes(dv).len() <= old(cur).bytes().len() && old(
                    cur,
                ).bytes().subrange(
                    old(cur).position(),
                    old(cur).position() + object_prop_desc_bytes(dv).len(),
                ) == object_prop_desc_bytes(dv) ==> r is Ok && r->Ok_0@ == dv
                    && final(cur).position() == old(cur).position() + object_prop_desc_bytes(
                    dv,
                ).len(),
    {
        let ghost b = old(cur).bytes();
        let ghost p0 = old(cur).position();
        proof {
            assert forall|dv: ObjectPropDescV| #![trigger object_prop_desc_bytes(dv)]
                object_prop_desc_encodable(dv) && !(dv.Form is Enumeration) && p0
                            + object_prop_desc_bytes(dv).len() <= b.len() && b.subrange(
                            p0,
                            p0 + object_prop_desc_bytes(dv).len(),
                        ) == object_prop_desc_bytes(dv) implies object_prop_desc_laid_out(b, p0, dv) by {
                lemma_object_prop_desc_fields(b, p0, dv);
            }
        }
        let fPropertyCode = match cur.read_ptp_u16() {
            Ok(v) => v,
            Err(e) => {
                proof {
                    assert forall|dv: ObjectPropDescV| #![trigger object_prop_desc_bytes(dv)]
                        object_prop_desc_encodable(dv) && !(dv.Form is Enumeration) && p0
                            + object_prop_desc_bytes(dv).len() <= b.len() && b.subrange(
                            p0,
                            p0 + object_prop_desc_bytes(dv).len(),
                        ) == object_prop_desc_bytes(dv) implies false by {
                        assert(object_prop_desc_laid_out(b, p0, dv));
                    }
                }
                return Err(e);
            },
        };
        proof {
            assert forall|dv: ObjectPropDescV| #![trigger object_prop_desc_bytes(dv)]
                object_prop_desc_encodable(dv) && !(dv.Form is Enumeration) && p0
                            + object_prop_desc_bytes(dv).len() <= b.len() && b.subrange(
                            p0,
                            p0 + object_prop_desc_bytes(dv).len(),
                        ) == object_prop_desc_bytes(dv) implies fPropertyCode == dv.PropertyCode && cur.position() == p0 + 2 by {
                assert(object_prop_desc_laid_out(b, p0, dv));
            }
        }
        let fDataType = match cur.read_ptp_u16() {
            Ok(v) => v,
            Err(e) => {
                proof {
                    assert forall|dv: ObjectPropDescV| #![trigger object_prop_desc_bytes(dv)]
                        object_prop_desc_encodable(dv) && !(dv.Form is Enumeration) && p0
                            + object_prop_desc_bytes(dv).len() <= b.len() && b.subrange(
                            p0,
                            p0 + object_prop_desc_bytes(dv).len(),
                        ) == object_prop_desc_bytes(dv) implies false by {
                        assert(object_prop_desc_laid_out(b, p0, dv));
                    }
                }
                return Err(e);
            },
        };
        proof {
            assert forall|dv: ObjectPropDescV| #![trigger object_prop_desc_bytes(dv)]
                object_prop_desc_encodable(dv) && !(dv.Form is Enumeration) && p0
                            + object_prop_desc_bytes(dv).len() <= b.len() && b.subrange(
                            p0,
                            p0 + object_prop_desc_bytes(dv).len(),
                        ) == object_prop_desc_bytes(dv) implies fDataType == dv.DataType && cur.position() == p0 + 4 by {
                assert(object_prop_desc_laid_out(b, p0, dv));
            }
        }
        let fGetSet = match cur.read_ptp_u8() {
            Ok(v) => v,
            Err(e) => {
                proof {
                    assert forall|dv: ObjectPropDescV| #![trigger object_prop_desc_bytes(dv)]
                        object_prop_desc_encodable(dv) && !(dv.Form is Enumeration) && p0
                            + object_prop_desc_bytes(dv).len() <= b.len() && b.subrange(
                            p0,
                            p0 + object_prop_desc_bytes(dv).len(),
                        ) == object_prop_desc_bytes(dv) implies false by {
                        assert(object_prop_desc_laid_out(b, p0, dv));
                    }
                }
                return Err(e);
            },
        };
        proof {
            assert forall|dv: ObjectPropDescV| #![trigger object_prop_desc_bytes(dv)]
                object_prop_desc_encodable(dv) && !(dv.Form is Enumeration) && p0
                            + object_prop_desc_bytes(dv).len() <= b.len() && b.subrange(
                            p0,
                            p0 + object_prop_desc_bytes(dv).len(),
                        ) == object_prop_desc_bytes(dv) implies fGetSet == dv.GetSet && cur.position() == p0 + 5 by {
                assert(object_prop_desc_laid_out(b, p0, dv));
            }
        }
        let fFactoryDefault = match PtpDataType::read_type(fDataType, cur) {
            Ok(v) => v,
            Err(e) => {
                proof {
                    assert forall|dv: ObjectPropDescV| #![trigger object_prop_desc_bytes(dv)]
                        object_prop_desc_encodable(dv) && !(dv.Form is Enumeration) && p0
                            + object_prop_desc_bytes(dv).len() <= b.len() && b.subrange(
                            p0,
                            p0 + object_prop_desc_bytes(dv).len(),
                        ) == object_prop_desc_bytes(dv) implies false by {
                        assert(object_prop_desc_laid_out(b, p0, dv));
                    }
                }
                return Err(e);
            },
        };
        proof {
            assert forall|dv: ObjectPropDescV| #![trigger object_prop_desc_bytes(dv)]
                object_prop_desc_encodable(dv) && !(dv.Form is Enumeration) && p0
                            + object_prop_desc_bytes(dv).len() <= b.len() && b.subrange(
                            p0,
                            p0 + object_prop_desc_bytes(dv).len(),
                        ) == object_prop_desc_bytes(dv) implies fFactoryDefault@ == dv.FactoryDefault && cur.position() == p0 + 5 + dt_bytes(dv.FactoryDefault).len() by {
                assert(object_prop_desc_laid_out(b, p0, dv));
            }
        }
        let fGroupCode = match cur.read_ptp_u32() {
            Ok(v) => v,
            Err(e) => {
                proof {
                    assert forall|dv: ObjectPropDescV| #![trigger object_prop_desc_bytes(dv)]
                        object_prop_desc_encodable(dv) && !(dv.Form is Enumeration) && p0
                            + object_prop_desc_bytes(dv).len() <= b.len() && b.subrange(
                            p0,
                            p0 + object_prop_desc_bytes(dv).len(),
                        ) == object_prop_desc_bytes(dv) implies false by {
                        assert(object_prop_desc_laid_out(b, p0, dv));
                    }
                }
                return Err(e);
            },
        };
        proof {
            assert forall|dv: ObjectPropDescV| #![trigger object_prop_desc_bytes(dv)]
                object_prop_desc_encodable(dv) && !(dv.Form is Enumeration) && p0
                            + object_prop_desc_bytes(dv).len() <= b.len() && b.subrange(
                            p0,
                            p0 + object_prop_desc_bytes(dv).len(),
                        ) == object_prop_desc_bytes(dv) implies fGroupCode == dv.GroupCode && cur.position() == p0 + 9 + dt_bytes(dv.FactoryDefault).len() by {
                assert(object_prop_desc_laid_out(b, p0, dv));
            }
        }
        let ghost qf = cur.position();
        let flag = match cur.read_ptp_u8() {
            Ok(v) => v,
            Err(e) => {
                proof {
                    assert forall|dv: ObjectPropDescV| #![trigger object_prop_desc_bytes(dv)]
                        object_prop_desc_encodable(dv) && !(dv.Form is Enumeration) && p0
                            + object_prop_desc_bytes(dv).len() <= b.len() && b.subrange(
                            p0,
                            p0 + object_prop_desc_bytes(dv).len(),
                        ) == object_prop_desc_bytes(dv) implies false by {
                        assert(object_prop_desc_laid_out(b, p0, dv));
                    }
                }
                return Err(e);
            },
        };
        proof {
            assert forall|dv: ObjectPropDescV| #![trigger object_prop_desc_bytes(dv)]
                object_prop_desc_encodable(dv) && !(dv.Form is Enumeration) && p0
                            + object_prop_desc_bytes(dv).len() <= b.len() && b.subrange(
                            p0,
                            p0 + object_prop_desc_bytes(dv).len(),
                        ) == object_prop_desc_bytes(dv) implies (dv.Form is NoForm ==> flag == 0) && (dv.Form is Range ==> flag == 1) && cur.position() == p0 + 10 + dt_bytes(dv.FactoryDefault).len() by {
                assert(object_prop_desc_laid_out(b, p0, dv));
            }
        }
        if flag == 1 {
            let fMin = match PtpDataType::read_type(fDataType, cur) {
                Ok(v) => v,
                Err(e) => {
                    proof {
                    assert forall|dv: ObjectPropDescV| #![trigger object_prop_desc_bytes(dv)]
                        object_prop_desc_encodable(dv) && !(dv.Form is Enumeration) && p0
                            + object_prop_desc_bytes(dv).len() <= b.len() && b.subrange(
                            p0,
                            p0 + object_prop_desc_bytes(dv).len(),
                        ) == object_prop_desc_bytes(dv) implies false by {
                        assert(object_prop_desc_laid_out(b, p0, dv));
                    }
                }
                    return Err(e);
                },
            };
        proof {
            assert forall|dv: ObjectPropDescV| #![trigger object_prop_desc_bytes(dv)]
                object_prop_desc_encodable(dv) && !(dv.Form is Enumeration) && p0
                            + object_prop_desc_bytes(dv).len() <= b.len() && b.subrange(
                            p0,
                            p0 + object_prop_desc_bytes(dv).len(),
                        ) == object_prop_desc_bytes(dv) implies dv.Form is Range && fMin@ == dv.Form->Range_minValue by {
                assert(object_prop_desc_laid_out(b, p0, dv));
            }
        }
            let ghost qa = cur.position();
            let fMax = match PtpDataType::read_type(fDataType, cur) {
                Ok(v) => v,
                Err(e) => {
                    proof {
                    assert forall|dv: ObjectPropDescV| #![trigger object_prop_desc_bytes(dv)]
                        object_prop_desc_encodable(dv) && !(dv.Form is Enumeration) && p0
                            + object_prop_desc_bytes(dv).len() <= b.len() && b.subrange(
                            p0,
                            p0 + object_prop_desc_bytes(dv).len(),
                        ) == object_prop_desc_bytes(dv) implies false by {
                        assert(object_prop_desc_laid_out(b, p0, dv));
                    }
                }
                    return Err(e);
                },
            };
        proof {
            assert forall|dv: ObjectPropDescV| #![trigger object_prop_desc_bytes(dv)]
                object_prop_desc_encodable(dv) && !(dv.Form is Enumeration) && p0
                            + object_prop_desc_bytes(dv).len() <= b.len() && b.subrange(
                            p0,
                            p0 + object_prop_desc_bytes(dv).len(),
                        ) == object_prop_desc_bytes(dv) implies dv.Form is Range && fMax@ == dv.Form->Range_maxValue by {
                assert(object_prop_desc_laid_out(b, p0, dv));
            }
        }
            let ghost qb = cur.position();
            let fStep = match PtpDataType::read_type(fDataType, cur) {
                Ok(v) => v,
                Err(e) => {
                    proof {
                    assert forall|dv: ObjectPropDescV| #![trigger object_prop_desc_bytes(dv)]
                        object_prop_desc_encodable(dv) && !(dv.Form is Enumeration) && p0
                            + object_prop_desc_bytes(dv).len() <= b.len() && b.subrange(
                            p0,
                            p0 + object_prop_desc_bytes(dv).len(),
                        ) == object_prop_desc_bytes(dv) implies false by {
                        assert(object_prop_desc_laid_out(b, p0, dv));
                    }
                }
                    return Err(e);
                },
            };
            let ret = PtpObjectPropDesc {
                PropertyCode: fPropertyCode,
                DataType: fDataType,
                GetSet: fGetSet,
                FactoryDefault: fFactoryDefault,
                GroupCode: fGroupCode,
                Form: PtpFormData::Range { minValue: fMin, maxValue: fMax, step: fStep },
            };
            proof {
                assert(dt_end(fDataType, b, qb) == Some(cur.position()));
                assert(dts_end(fDataType, 0nat, b, cur.position()) == Some(cur.position()));
                assert(dts_end(fDataType, 1nat, b, qb) == Some(cur.position()));
                assert(dts_end(fDataType, 2nat, b, qa) == Some(cur.position()));
                assert(dts_end(fDataType, 3nat, b, qf + 1) == Some(cur.position()));
                assert(form_end(fDataType, b, qf) == Some(cur.position()));
                assert(object_prop_desc_form_pos(b, p0) == Some(qf));
                assert(object_prop_desc_end(b, p0) == Some(cur.position()));
            }
        proof {
            assert forall|dv: ObjectPropDescV| #![trigger object_prop_desc_bytes(dv)]
                object_prop_desc_encodable(dv) && !(dv.Form is Enumeration) && p0
                            + object_prop_desc_bytes(dv).len() <= b.len() && b.subrange(
                            p0,
                            p0 + object_prop_desc_bytes(dv).len(),
                        ) == object_prop_desc_bytes(dv) implies ret@ == dv && cur.position() == p0 + object_prop_desc_bytes(dv).len() by {
                assert(object_prop_desc_laid_out(b, p0, dv));
            }
        }
            Ok(ret)
        } else if flag == 2 {
            let count = match cur.read_ptp_u16() {
                Ok(v) => v,
                Err(e) => {
                    proof {
                    assert forall|dv: ObjectPropDescV| #![trigger object_prop_desc_bytes(dv)]
                        object_prop_desc_encodable(dv) && !(dv.Form is Enumeration) && p0
                            + object_prop_desc_bytes(dv).len() <= b.len() && b.subrange(
                            p0,
                            p0 + object_prop_desc_bytes(dv).len(),
                        ) == object_prop_desc_bytes(dv) implies false by {
                        assert(object_prop_desc_laid_out(b, p0, dv));
                    }
                }
                    return Err(e);
                },
            };
            let ghost qstart = cur.position();
            proof {
                assert(form_end(fDataType, b, qf) == dts_end(fDataType, count as nat, b, qstart));
                assert(object_prop_desc_end(b, p0) == dts_end(fDataType, count as nat, b, qstart));
            }
            let mut arr: Vec<PtpDataType> = Vec::new();
            let mut i: u16 = 0;
            while i < count
                invariant
                    cur.wf(),
                    b == old(cur).bytes(),
                    p0 == old(cur).position(),
                    cur.bytes() == b,
                    i <= count,
                    object_prop_desc_end(b, p0) == dts_end(fDataType, count as nat, b, qstart),
                    dts_end(fDataType, (count - i) as nat, b, cur.position()) == dts_end(
                        fDataType,
                        count as nat,
                        b,
                        qstart,
                    ),
                    forall|dv: ObjectPropDescV| #![trigger object_prop_desc_bytes(dv)]
                        object_prop_desc_encodable(dv) && !(dv.Form is Enumeration) && p0
                            + object_prop_desc_bytes(dv).len() <= b.len() && b.subrange(
                            p0,
                            p0 + object_prop_desc_bytes(dv).len(),
                        ) == object_prop_desc_bytes(dv) ==> false,
                decreases count - i,
            {
                let ghost qv = cur.position();
                let v = match PtpDataType::read_type(fDataType, cur) {
                    Ok(v) => v,
                    Err(e) => {
                        return Err(e);
                    },
                };
                arr.push(v);
                proof {
                    assert((count - i) as nat == 1 + (count - (i + 1)) as nat);
                    assert(dts_end(fDataType, (count - i) as nat, b, qv) == dts_end(
                        fDataType,
                        (count - (i + 1)) as nat,
                        b,
                        cur.position(),
                    ));
                }
                i = i + 1;
            }
            let ret = PtpObjectPropDesc {
                PropertyCode: fPropertyCode,
                DataType: fDataType,
                GetSet: fGetSet,
                FactoryDefault: fFactoryDefault,
                GroupCode: fGroupCode,
                Form: PtpFormData::Enumeration { array: arr },
            };
            proof {
                assert(dts_end(fDataType, (count - i) as nat, b, cur.position()) == Some(
                    cur.position(),
                ));
                assert(object_prop_desc_form_pos(b, p0) == Some(qf));
                assert(object_prop_desc_end(b, p0) == Some(cur.position()));
            }
            Ok(ret)
        } else {
            let ret = PtpObjectPropDesc {
                PropertyCode: fPropertyCode,
                DataType: fDataType,
                GetSet: fGetSet,
                FactoryDefault: fFactoryDefault,
                GroupCode: fGroupCode,
                Form: PtpFormData::NoForm,
            };
            proof {
                assert(form_end(fDataType, b, qf) == Some(qf + 1));
                assert(object_prop_desc_form_pos(b, p0) == Some(qf));
                assert(object_prop_desc_end(b, p0) == Some(cur.position()));
            }
        proof {
            assert forall|dv: ObjectPropDescV| #![trigger object_prop_desc_bytes(dv)]
                object_prop_desc_encodable(dv) && !(dv.Form is Enumeration) && p0
                            + object_prop_desc_bytes(dv).len() <= b.len() && b.subrange(
                            p0,
                            p0 + object_prop_desc_bytes(dv).len(),
                        ) == object_prop_desc_bytes(dv) implies flag == 0 && ret@ == dv && cur.position() == p0 + object_prop_desc_bytes(dv).len() by {
                assert(object_prop_desc_laid_out(b, p0, dv));
            }
        }
            Ok(ret)
        }
    }
}

} // verus!
