//! The container model: the face root structure, parsed from the raw
//! container bytes and re-serialized losslessly in two passes (sizes first,
//! then bytes with blob offsets assigned in emission order).

use vstd::prelude::*;
use crate::digits::{Digits, digits_parse_ok, is_digits_parse};
use crate::elements::{Element, bin_size_spec, elem_bytes, elem_parse_ok, elem_pay, elem_size_at,
    elem_wf, is_elem_parse, known_type, lemma_elem_size_at, owh_seq_bytes, pay_seq_bytes,
    write_img_seq};
use crate::error::FaceError;
use crate::img_data::{ImgData, DumpFormat, import_from_rel, is_owh_parse, owh_ok};
use crate::util::{align4_spec, get_u16, le16_at, pad4_spec, push_u16, push_u32, u16_le_bytes,
    u32_le_bytes};

verus! {

/// The face root: header fields, the digit fonts, and the ordered element
/// list, whose order is the paint order and must survive round trips.
#[derive(Clone, PartialEq, Debug)]
pub struct FaceN {
    pub type_str: String,
    pub rev: u16,
    pub tpls: u16,
    pub api_ver: u16,
    pub unknown: u16,
    pub preview_img_data: ImgData,
    pub digits: Vec<Digits>,
    pub elements: Vec<Element>,
}

/// `d` holds record number `k` of the digit table at `base`.
pub open spec fn digits_slot_parse(file: Seq<u8>, base: int, k: int, d: Digits) -> bool {
    is_digits_parse(file, base + 83 * k, d)
}

/// Record number `k` of the digit table at `base` parses, with the right
/// index byte.
pub open spec fn digits_slot_ok(file: Seq<u8>, base: int, k: int) -> bool {
    digits_parse_ok(file, base + 83 * k, k)
}

/// The element list `elems` stands in `file` at the offsets `offs`: each
/// element parses at its offset, each record's flag byte is nonzero (the
/// list stops at the first zero flag), and each next offset is the
/// previous plus the element's size.
pub open spec fn elems_at(file: Seq<u8>, offs: Seq<int>, elems: Seq<Element>) -> bool {
    offs.len() == elems.len() + 1 && (forall|k: int|
        0 <= k < elems.len() ==> is_elem_parse(file, #[trigger] offs[k], elems[k])) && (forall|
        k: int,
    |
        0 <= k < elems.len() ==> offs[k + 1] == #[trigger] offs[k] + bin_size_spec(elems[k])) && (
    forall|k: int|
        0 <= k < elems.len() ==> 0 <= #[trigger] offs[k] < file.len() && file[offs[k]] != 0)
}

/// The element stream at `o` is well formed: records with known type codes
/// parse back to back, each fitting the buffer, until a zero flag byte.
pub open spec fn elems_parse_ok_from(file: Seq<u8>, o: int) -> bool
    decreases file.len() - o,
{
    if o < 0 || o + 2 > file.len() {
        false
    } else if file[o] == 0 {
        true
    } else if !known_type(file[o + 1]) {
        false
    } else if !elem_parse_ok(file, o) {
        false
    } else if o + elem_size_at(file, o) > file.len() {
        false
    } else {
        elems_parse_ok_from(file, o + elem_size_at(file, o))
    }
}

/// A syntactically valid container: the header fits, the preview image can
/// be cut out of the blob, every digit record in the table parses with the
/// right index byte, and the element stream parses up to its terminator.
/// The parser succeeds on exactly these buffers.
#[verifier::opaque]
pub open spec fn face_parse_ok(file: Seq<u8>) -> bool {
    let d_off = le16_at(file, 12) as int;
    let e_off = le16_at(file, 14) as int;
    &&& file.len() >= 16
    &&& owh_ok(file, 4)
    &&& (d_off != 0 ==> d_off + 2 <= file.len() && (forall|k: int|
        0 <= k < digits_count_spec(d_off, e_off) ==> #[trigger] digits_slot_ok(
            file,
            d_off + 2,
            k,
        )))
    &&& elems_parse_ok_from(file, e_off)
}

/// How many digit records the parser reads between the sentinel and the
/// element table.
pub open spec fn digits_count_spec(d_off: int, e_off: int) -> int {
    if e_off > d_off + 2 {
        ((e_off - d_off - 2) + 82) / 83
    } else {
        0
    }
}

impl FaceN {
    /// Parse a container.  Fails on a truncated buffer, an element type
    /// code with no known layout, a digit record whose index byte does not
    /// match its position, or an image that cannot be cut out of the blob
    /// region.
    #[verifier::rlimit(100)]
    pub fn from_bin(file_data: &[u8]) -> (r: Result<FaceN, FaceError>)
        ensures
            match r {
                Ok(f) => file_data@.len() >= 16 && f.api_ver == le16_at(file_data@, 0) && f.unknown
                    == le16_at(file_data@, 2) && owh_ok(file_data@, 4) && is_owh_parse(
                    file_data@,
                    4,
                    f.preview_img_data,
                ) && f.rev == 0 && f.tpls == 0 && {
                    let d_off = le16_at(file_data@, 12) as int;
                    let e_off = le16_at(file_data@, 14) as int;
                    &&& (d_off == 0 ==> f.digits@.len() == 0)
                    &&& (d_off != 0 ==> f.digits@.len() == digits_count_spec(d_off, e_off) && (
                    forall|k: int|
                        0 <= k < f.digits@.len() ==> #[trigger] digits_slot_ok(
                            file_data@,
                            d_off + 2,
                            k,
                        )) && (forall|k: int|
                        0 <= k < f.digits@.len() ==> digits_slot_parse(
                            file_data@,
                            d_off + 2,
                            k,
                            #[trigger] f.digits@[k],
                        ) && f.digits@[k].wf()))
                    &&& (exists|offs: Seq<int>|
                        offs.len() == f.elements@.len() + 1 && offs[0] == e_off && elems_at(
                            file_data@,
                            offs,
                            f.elements@,
                        ) && offs.last() + 1 <= file_data@.len() && file_data@[offs.last()] == 0)
                    &&& (forall|k: int|
                        0 <= k < f.elements@.len() ==> !(#[trigger] f.elements@[k] matches
                        Element::Unknown) && elem_wf(f.elements@[k]))
                    &&& (e_off < file_data@.len() && file_data@[e_off] == 0
                        ==> f.elements@.len() == 0)
                },
                Err(_) => !face_parse_ok(file_data@),
            },
    {
        let n = file_data.len();
        if n < 16 {
            proof {
                assert(!face_parse_ok(file_data@)) by {
                    reveal(face_parse_ok);
                }
            }
            return Err(FaceError::Truncated);
        }
        let api_ver = get_u16(file_data, 0);
        let unknown = get_u16(file_data, 2);
        let preview_img_data = match ImgData::from_owh(file_data, 4) {
            Ok(id) => id,
            Err(e) => {
                proof {
                    assert(!face_parse_ok(file_data@)) by {
                        reveal(face_parse_ok);
                    }
                }
                return Err(e);
            },
        };
        let d_offset = get_u16(file_data, 12);
        let e_offset = get_u16(file_data, 14);

        // read the digit fonts, if a table is present
        let mut digits: Vec<Digits> = Vec::new();
        if d_offset != 0 {
            let mut offset: usize = d_offset as usize;
            // the table opens with a two-byte sentinel; an unexpected value
            // is tolerated, but it must at least be readable
            if n < 2 || offset > n - 2 {
                proof {
                    assert(!face_parse_ok(file_data@)) by {
                        reveal(face_parse_ok);
                    }
                }
                return Err(FaceError::Truncated);
            }
            let _sentinel = get_u16(file_data, offset);
            offset = offset + 2;
            let mut digits_count: usize = 0;
            while offset < e_offset as usize
                invariant
                    n == file_data@.len(),
                    d_offset != 0,
                    d_offset == le16_at(file_data@, 12),
                    e_offset == le16_at(file_data@, 14),
                    offset <= 0xFFFF + 2 + 83 * digits_count,
                    offset == d_offset + 2 + 83 * digits_count,
                    digits@.len() == digits_count,
                    forall|k: int|
                        0 <= k < digits_count ==> #[trigger] digits_slot_ok(
                            file_data@,
                            d_offset + 2,
                            k,
                        ),
                    forall|k: int|
                        0 <= k < digits_count ==> digits_slot_parse(
                            file_data@,
                            d_offset + 2,
                            k,
                            #[trigger] digits@[k],
                        ) && digits@[k].wf(),
                    digits_count > 0 ==> d_offset + 2 + 83 * (digits_count - 1) < e_offset,
                decreases e_offset + 83 - offset,
            {
                let d = match Digits::from_bin(file_data, offset, digits_count) {
                    Ok(d) => d,
                    Err(e) => {
                        proof {
                            assert(!face_parse_ok(file_data@)) by {
                                reveal(face_parse_ok);
                                if face_parse_ok(file_data@) {
                                    let d_off = d_offset as int;
                                    let e_off = e_offset as int;
                                    assert(le16_at(file_data@, 12) as int == d_off);
                                    assert(le16_at(file_data@, 14) as int == e_off);
                                    assert(digits_count < digits_count_spec(d_off, e_off))
                                        by (nonlinear_arith)
                                        requires
                                            d_off + 2 + 83 * digits_count < e_off,
                                            digits_count >= 0,
                                            digits_count_spec(d_off, e_off) == (if e_off > d_off
                                                + 2 {
                                                ((e_off - d_off - 2) + 82) / 83
                                            } else {
                                                0
                                            }),
                                    ;
                                    assert(digits_slot_ok(
                                        file_data@,
                                        le16_at(file_data@, 12) as int + 2,
                                        digits_count as int,
                                    ));
                                    assert(false);
                                }
                            }
                        }
                        return Err(e);
                    },
                };
                digits.push(d);
                digits_count = digits_count + 1;
                offset = offset + 83;
            }
            proof {
                let d_off = d_offset as int;
                let e_off = e_offset as int;
                assert(digits@.len() == digits_count_spec(d_off, e_off)) by (nonlinear_arith)
                    requires
                        digits@.len() == digits_count,
                        d_off + 2 + 83 * digits_count >= e_off,
                        digits_count > 0 ==> d_off + 2 + 83 * (digits_count - 1) < e_off,
                        digits_count_spec(d_off, e_off) == (if e_off > d_off + 2 {
                            ((e_off - d_off - 2) + 82) / 83
                        } else {
                            0
                        }),
                ;
            }
        }

        // read the elements until the terminating zero flag byte
        let mut elements: Vec<Element> = Vec::new();
        let mut offset = e_offset as usize;
        if offset > n {
            proof {
                assert(!face_parse_ok(file_data@)) by {
                    reveal(face_parse_ok);
                    assert(!elems_parse_ok_from(file_data@, e_offset as int));
                }
            }
            return Err(FaceError::Truncated);
        }
        let ghost mut offs: Seq<int> = seq![e_offset as int];
        proof {
            assert(face_parse_ok(file_data@) ==> elems_parse_ok_from(
                file_data@,
                e_offset as int,
            )) by {
                reveal(face_parse_ok);
            }
        }
        loop
            invariant
                n == file_data@.len(),
                offset <= n,
                face_parse_ok(file_data@) ==> elems_parse_ok_from(file_data@, offset as int),
                offs.len() == elements@.len() + 1,
                offs[0] == e_offset as int,
                offs.last() == offset as int,
                elems_at(file_data@, offs, elements@),
                forall|k: int|
                    0 <= k < elements@.len() ==> !(#[trigger] elements@[k] matches
                    Element::Unknown) && elem_wf(elements@[k]),
            ensures
                offs.len() == elements@.len() + 1,
                offs[0] == e_offset as int,
                offs.last() == offset as int,
                elems_at(file_data@, offs, elements@),
                forall|k: int|
                    0 <= k < elements@.len() ==> !(#[trigger] elements@[k] matches
                    Element::Unknown) && elem_wf(elements@[k]),
                offset < file_data@.len() && file_data@[offset as int] == 0,
            decreases n - offset,
        {
            if n - offset < 2 {
                proof {
                    assert(!elems_parse_ok_from(file_data@, offset as int));
                }
                return Err(FaceError::Truncated);
            }
            let one = file_data[offset];
            if one == 0 {
                break;
            }
            let e = match Element::from_bin(file_data, offset) {
                Ok(e) => e,
                Err(err) => {
                    proof {
                        assert(!elems_parse_ok_from(file_data@, offset as int));
                    }
                    return Err(err);
                },
            };
            if let Element::Unknown = e {
                proof {
                    assert(!known_type(file_data@[offset + 1]));
                    assert(!elems_parse_ok_from(file_data@, offset as int));
                }
                return Err(FaceError::UnknownElementType);
            }
            let size = e.bin_size();
            proof {
                lemma_elem_size_at(file_data@, offset as int, e);
            }
            if n - offset < size {
                proof {
                    assert(!elems_parse_ok_from(file_data@, offset as int));
                }
                return Err(FaceError::Truncated);
            }
            proof {
                assert(bin_size_spec(e) >= 3);
            }
            let ghost offs_pre = offs;
            proof {
                offs = offs.push(offset + size as int);
            }
            elements.push(e);
            offset = offset + size;
            proof {
                assert(offs.last() == offset as int);
                assert forall|k: int| 0 <= k < elements@.len() implies is_elem_parse(
                    file_data@,
                    #[trigger] offs[k],
                    elements@[k],
                ) by {
                    if k < elements@.len() - 1 {
                        assert(offs[k] == offs_pre[k]);
                        assert(elements@[k] == elements@.subrange(
                            0,
                            elements@.len() - 1,
                        )[k]);
                    }
                }
                assert forall|k: int| 0 <= k < elements@.len() implies offs[k + 1] == #[trigger] offs[k]
                    + bin_size_spec(elements@[k]) by {
                    if k < elements@.len() - 1 {
                        assert(offs[k] == offs_pre[k]);
                        assert(offs[k + 1] == offs_pre[k + 1]);
                    }
                }
            }
        }
        proof {
            assert(elems_at(file_data@, offs, elements@));
            assert(offs.last() + 1 <= file_data@.len() && file_data@[offs.last()] == 0);
        }
        Ok(
            FaceN {
                type_str: crate::face::face_type_str(),
                rev: 0,
                tpls: 0,
                api_ver,
                unknown,
                preview_img_data,
                digits,
                elements,
            },
        )
    }
}

/// The fixed model-type tag carried in the editable form of a face.
pub fn face_type_str() -> (r: String)
    ensures
        r@ == "extrathunder watchface"@,
{
    let s: &str = "extrathunder watchface";
    s.to_owned()
}

/// The summed on-disk size of an element run.
pub open spec fn elems_size_sum(elems: Seq<Element>) -> int
    decreases elems.len(),
{
    if elems.len() == 0 {
        0
    } else {
        bin_size_spec(elems[0]) + elems_size_sum(elems.drop_first())
    }
}

/// The element headers of a run whose payloads start at `off`, in order.
pub open spec fn elems_hdr_bytes(elems: Seq<Element>, off: int) -> Seq<u8>
    decreases elems.len(),
{
    if elems.len() == 0 {
        Seq::empty()
    } else {
        elem_bytes(elems[0], off) + elems_hdr_bytes(
            elems.drop_first(),
            off + elem_pay(elems[0]).len(),
        )
    }
}

/// The blob bytes of an element run, in order.
pub open spec fn elems_pay_bytes(elems: Seq<Element>) -> Seq<u8>
    decreases elems.len(),
{
    if elems.len() == 0 {
        Seq::empty()
    } else {
        elem_pay(elems[0]) + elems_pay_bytes(elems.drop_first())
    }
}

/// Size of the digit table region in the header, sentinel included; zero
/// when there are no digit fonts.
pub open spec fn digits_hdr_size_spec(ds: Seq<Digits>) -> int {
    if ds.len() > 0 {
        2 + 83 * ds.len() as int
    } else {
        0
    }
}

/// The digit records as emitted, record `idx` first, their glyph payloads
/// starting at `off`.
pub open spec fn digits_rec_bytes(ds: Seq<Digits>, idx: int, off: int) -> Seq<u8>
    decreases ds.len(),
{
    if ds.len() == 0 {
        Seq::empty()
    } else {
        seq![idx as u8] + owh_seq_bytes(ds[0].img_data@, off) + u16_le_bytes(ds[0].unknown)
            + digits_rec_bytes(
            ds.drop_first(),
            idx + 1,
            off + pay_seq_bytes(ds[0].img_data@).len(),
        )
    }
}

/// The glyph payload bytes of the digit fonts, in order.
pub open spec fn digits_pay_bytes(ds: Seq<Digits>) -> Seq<u8>
    decreases ds.len(),
{
    if ds.len() == 0 {
        Seq::empty()
    } else {
        pay_seq_bytes(ds[0].img_data@) + digits_pay_bytes(ds.drop_first())
    }
}

/// Everything the serializer asks of a face: no unknown element, every
/// field vector at its declared length, a digit table that fits its 16-bit
/// offset field, and a total size whose blob offsets fit 32 bits.
pub open spec fn face_emit_ok(f: FaceN) -> bool {
    (forall|k: int|
        0 <= k < f.elements@.len() ==> !(#[trigger] f.elements@[k] matches Element::Unknown)
            && elem_wf(f.elements@[k])) && (forall|k: int|
        0 <= k < f.digits@.len() ==> (#[trigger] f.digits@[k]).wf()) && f.digits@.len() <= 789
        && f.elements@.len() <= 2000000 && align4_spec(
        16 + digits_hdr_size_spec(f.digits@) + elems_size_sum(f.elements@) + 2,
    ) + elems_pay_bytes(f.elements@).len() + digits_pay_bytes(f.digits@).len() <= u32::MAX
}

impl FaceN {
    /// Serialize the face.  The first pass sums the header sizes; the
    /// second emits element headers, digit records and the preview while
    /// assigning blob offsets in emission order, each payload padded to a
    /// 4-byte boundary.  Every emitted element is checked against its own
    /// declared size.  Succeeds on every face that `face_emit_ok` admits.
    #[verifier::rlimit(100)]
    #[verifier::spinoff_prover]
    pub fn to_bin(&self) -> (r: Result<Vec<u8>, FaceError>)
        ensures
            match r {
                Ok(b) => b@ == face_bin_bytes(*self) && face_bin_ok(*self, b@),
                Err(e) => e == FaceError::UnknownElementType || e == FaceError::ElementSizeMismatch
                    || e == FaceError::HeaderSizeMismatch || e == FaceError::OffsetTooLarge,
            },
            face_emit_ok(*self) ==> r is Ok,
            r is Ok ==> forall|k: int|
                0 <= k < self.elements@.len() ==> !(#[trigger] self.elements@[k] matches
                Element::Unknown),
    {
        let ghost gelems = self.elements@;
        let ghost gdigits = self.digits@;
        // first pass: sizes
        if self.digits.len() > 789 {
            return Err(FaceError::HeaderSizeMismatch);
        }
        if self.elements.len() > 2000000 {
            return Err(FaceError::OffsetTooLarge);
        }
        let digits_header_size: usize = if self.digits.len() > 0 {
            2 + self.digits.len() * 83
        } else {
            0
        };
        let en = self.elements.len();
        let mut esum: u64 = 0;
        let mut i: usize = 0;
        proof {
            assert(gelems.skip(0) =~= gelems);
        }
        while i < en
            invariant
                i <= en,
                en == gelems.len(),
                en <= 2000000,
                gelems == self.elements@,
                esum <= 2048 * i,
                elems_size_sum(gelems) == esum + elems_size_sum(gelems.skip(i as int)),
                forall|k: int|
                    0 <= k < i ==> !(#[trigger] gelems[k] matches Element::Unknown),
            decreases en - i,
        {
            if let Element::Unknown = &self.elements[i] {
                return Err(FaceError::UnknownElementType);
            }
            let sz = self.elements[i].bin_size();
            proof {
                assert(gelems.skip(i as int)[0] == gelems[i as int]);
                assert(gelems.skip(i as int).drop_first() =~= gelems.skip(i + 1));
                assert(bin_size_spec(gelems[i as int]) <= 2048);
            }
            esum = esum + (sz as u64);
            i = i + 1;
        }
        proof {
            assert(gelems.skip(en as int) =~= Seq::<Element>::empty());
        }
        let total_header_size: u64 = 16 + (digits_header_size as u64) + esum + 2;
        let pad: u64 = (4 - total_header_size % 4) % 4;
        let blob0: u64 = total_header_size + pad;
        proof {
            assert(blob0 == align4_spec(16 + digits_hdr_size_spec(gdigits) + elems_size_sum(
                gelems,
            ) + 2));
        }
        if blob0 > 0xFFFF_FFFF {
            return Err(FaceError::OffsetTooLarge);
        }
        // second pass: element headers and payloads
        let mut blob: Vec<u8> = Vec::new();
        let mut blob_offset: u32 = blob0 as u32;
        let mut elems_hdr: Vec<u8> = Vec::new();
        let mut i: usize = 0;
        proof {
            assert(elems_pay_bytes(gelems).len() + digits_pay_bytes(gdigits).len() >= 0);
        }
        while i < en
            invariant
                i <= en,
                en == gelems.len(),
                gelems == self.elements@,
                gdigits == self.digits@,
                forall|k: int|
                    0 <= k < en ==> !(#[trigger] gelems[k] matches Element::Unknown),
                blob0 <= 0xFFFF_FFFF,
                blob_offset == blob0 + blob@.len(),
                blob@ == elems_pay_bytes(gelems.take(i as int)),
                elems_pay_bytes(gelems) == blob@ + elems_pay_bytes(gelems.skip(i as int)),
                elems_hdr@ == elems_hdr_bytes(gelems.take(i as int), blob0 as int),
                elems_hdr_bytes(gelems, blob0 as int) == elems_hdr@ + elems_hdr_bytes(
                    gelems.skip(i as int),
                    blob_offset as int,
                ),
                elems_size_sum(gelems) == elems_hdr@.len() + elems_size_sum(
                    gelems.skip(i as int),
                ),
                face_emit_ok(*self) ==> blob_offset + elems_pay_bytes(
                    gelems.skip(i as int),
                ).len() + digits_pay_bytes(gdigits).len() <= u32::MAX,
            decreases en - i,
        {
            let ghost blob_pre = blob@;
            let ghost hdr_pre = elems_hdr@;
            let ghost off_pre = blob_offset;
            let el = &self.elements[i];
            let expected_size = el.bin_size();
            let el_data = match el.to_bin(&mut blob, &mut blob_offset) {
                Ok(h) => h,
                Err(e) => {
                    proof {
                        if face_emit_ok(*self) {
                            assert(elems_pay_bytes(gelems.skip(i as int))[0] == elem_pay(
                                gelems[i as int],
                            )[0] || true);
                            assert(gelems.skip(i as int)[0] == gelems[i as int]);
                            assert(gelems.skip(i as int).drop_first() =~= gelems.skip(i + 1));
                            assert(false);
                        }
                    }
                    return Err(e);
                },
            };
            if expected_size != el_data.len() {
                proof {
                    if face_emit_ok(*self) {
                        assert(elem_wf(gelems[i as int]));
                        assert(false);
                    }
                }
                return Err(FaceError::ElementSizeMismatch);
            }
            let mut el_moved = el_data;
            elems_hdr.append(&mut el_moved);
            proof {
                let ii = i as int;
                assert(gelems.skip(ii)[0] == gelems[ii]);
                assert(gelems.skip(ii).drop_first() =~= gelems.skip(ii + 1));
                assert(elems_size_sum(gelems.skip(ii)) == bin_size_spec(gelems[ii])
                    + elems_size_sum(gelems.skip(ii + 1)));
                assert(gelems.take(ii + 1).drop_last() =~= gelems.take(ii));
                assert(gelems.take(ii + 1) =~= gelems.take(ii).push(gelems[ii]));
                assert(blob@ =~= blob_pre + elem_pay(gelems[ii]));
                lemma_pay_take_snoc(gelems, ii);
                lemma_hdr_take_snoc(gelems, ii, blob0 as int);
                assert(elems_hdr@ =~= hdr_pre + elem_bytes(gelems[ii], off_pre as int));
                assert(elems_pay_bytes(gelems) =~= blob@ + elems_pay_bytes(gelems.skip(ii + 1)));
                assert(elems_hdr_bytes(gelems, blob0 as int) =~= elems_hdr@ + elems_hdr_bytes(
                    gelems.skip(ii + 1),
                    blob_offset as int,
                ));
            }
            i = i + 1;
        }
        proof {
            assert(gelems.take(en as int) =~= gelems);
            assert(gelems.skip(en as int) =~= Seq::<Element>::empty());
            assert(elems_pay_bytes(gelems) =~= blob@);
            assert(elems_hdr_bytes(gelems, blob0 as int) =~= elems_hdr@);
        }
        let epay_len: usize = blob.len();
        // digit records, their payloads following the element payloads
        let dn = self.digits.len();
        let mut digits_buf: Vec<u8> = Vec::new();
        let mut k: usize = 0;
        proof {
            assert(gdigits.skip(0) =~= gdigits);
        }
        while k < dn
            invariant
                k <= dn,
                dn == gdigits.len(),
                dn <= 789,
                gdigits == self.digits@,
                blob0 <= 0xFFFF_FFFF,
                blob_offset == blob0 + blob@.len(),
                blob@.len() >= epay_len,
                blob@.take(epay_len as int) == elems_pay_bytes(gelems),
                epay_len == elems_pay_bytes(gelems).len(),
                blob@.skip(epay_len as int) == digits_pay_bytes(gdigits.take(k as int)),
                digits_pay_bytes(gdigits) == blob@.skip(epay_len as int) + digits_pay_bytes(
                    gdigits.skip(k as int),
                ),
                digits_buf@ == digits_rec_bytes(
                    gdigits.take(k as int),
                    0,
                    blob0 + epay_len as int,
                ),
                digits_rec_bytes(gdigits, 0, blob0 + epay_len as int) == digits_buf@
                    + digits_rec_bytes(
                    gdigits.skip(k as int),
                    k as int,
                    blob_offset as int,
                ),
                digits_buf@.len() == 83 * k,
                face_emit_ok(*self) ==> blob_offset + digits_pay_bytes(
                    gdigits.skip(k as int),
                ).len() <= u32::MAX,
            decreases dn - k,
        {
            let ghost blob_pre = blob@;
            let ghost buf_pre = digits_buf@;
            let ghost off_pre = blob_offset;
            let d = &self.digits[k];
            let mut dh: Vec<u8> = Vec::new();
            dh.push(k as u8);
            if let Err(e) = write_img_seq(&d.img_data, &mut dh, &mut blob, &mut blob_offset) {
                proof {
                    if face_emit_ok(*self) {
                        let kk = k as int;
                        assert(gdigits.skip(kk)[0] == gdigits[kk]);
                        assert(gdigits.skip(kk).drop_first() =~= gdigits.skip(kk + 1));
                        assert(digits_pay_bytes(gdigits.skip(kk)) == pay_seq_bytes(
                            gdigits[kk].img_data@,
                        ) + digits_pay_bytes(gdigits.skip(kk + 1)));
                        assert(false);
                    }
                }
                return Err(e);
            }
            push_u16(&mut dh, d.unknown);
            if dh.len() != 83 {
                proof {
                    if face_emit_ok(*self) {
                        assert(gdigits[k as int].wf());
                        crate::face::lemma_owh_seq_len_pub(
                            gdigits[k as int].img_data@,
                            off_pre as int,
                        );
                        assert(false);
                    }
                }
                return Err(FaceError::HeaderSizeMismatch);
            }
            let mut dh_moved = dh;
            digits_buf.append(&mut dh_moved);
            proof {
                let kk = k as int;
                assert(gdigits.skip(kk)[0] == gdigits[kk]);
                assert(gdigits.skip(kk).drop_first() =~= gdigits.skip(kk + 1));
                assert(gdigits.take(kk + 1).drop_last() =~= gdigits.take(kk));
                lemma_digits_pay_take_snoc(gdigits, kk);
                lemma_digits_rec_take_snoc(gdigits, kk, blob0 + epay_len as int);
                assert(blob@.skip(epay_len as int) =~= blob_pre.skip(epay_len as int)
                    + pay_seq_bytes(gdigits[kk].img_data@));
                assert(blob@.take(epay_len as int) =~= blob_pre.take(epay_len as int));
                assert(digits_buf@ =~= buf_pre + (seq![kk as u8] + owh_seq_bytes(
                    gdigits[kk].img_data@,
                    off_pre as int,
                ) + u16_le_bytes(gdigits[kk].unknown)));
                assert(digits_pay_bytes(gdigits) =~= blob@.skip(epay_len as int)
                    + digits_pay_bytes(gdigits.skip(kk + 1)));
                assert(digits_rec_bytes(gdigits, 0, blob0 + epay_len as int) =~= digits_buf@
                    + digits_rec_bytes(gdigits.skip(kk + 1), kk + 1, blob_offset as int));
            }
            k = k + 1;
        }
        proof {
            assert(gdigits.take(dn as int) =~= gdigits);
            assert(gdigits.skip(dn as int) =~= Seq::<Digits>::empty());
            assert(digits_rec_bytes(gdigits, 0, blob0 + epay_len as int) =~= digits_buf@);
            assert(blob@.skip(epay_len as int) =~= digits_pay_bytes(gdigits));
        }
        // the preview image ends the blob; its offset is patched into the
        // header
        proof {
            assert(elems_hdr_bytes(gelems, blob0 as int).len() == elems_size_sum(gelems));
            assert(digits_rec_bytes(gdigits, 0, blob0 + epay_len as int).len() == 83
                * gdigits.len());
            assert(blob@ =~= elems_pay_bytes(gelems) + digits_pay_bytes(gdigits));
        }
        Ok(self.assemble_bin(blob, blob_offset, digits_buf, elems_hdr, digits_header_size, pad, blob0, epay_len))
    }

    /// Assemble the final buffer: the 16-byte main header with the patched
    /// preview offset, the digit table region, the element headers, the
    /// terminator, zero filler up to the blob boundary, and the blob.
    #[verifier::rlimit(100)]
    #[verifier::spinoff_prover]
    fn assemble_bin(&self, blob_in: Vec<u8>, blob_offset: u32, digits_buf: Vec<u8>,
        elems_hdr: Vec<u8>, digits_header_size: usize, pad: u64, blob0: u64, epay_len: usize)
        -> (b: Vec<u8>)
        requires
            ({
                let dhs = digits_hdr_size_spec(self.digits@);
                let esum = elems_size_sum(self.elements@);
                let epay = elems_pay_bytes(self.elements@);
                let dpay = digits_pay_bytes(self.digits@);
                &&& digits_header_size == dhs
                &&& 16 + dhs <= 0xFFFF
                &&& blob0 == align4_spec(16 + dhs + esum + 2)
                &&& pad == pad4_spec(16 + dhs + esum + 2)
                &&& blob0 <= 0xFFFF_FFFF
                &&& blob_in@ == epay + dpay
                &&& blob_offset == blob0 + blob_in@.len()
                &&& epay_len == epay.len()
                &&& digits_buf@ == digits_rec_bytes(self.digits@, 0, blob0 + epay_len)
                &&& digits_buf@.len() == 83 * self.digits@.len()
                &&& elems_hdr@ == elems_hdr_bytes(self.elements@, blob0 as int)
                &&& elems_hdr@.len() == esum
            }),
        ensures
            b@ == face_bin_bytes(*self),
            face_bin_ok(*self, b@),
    {
        let ghost gelems = self.elements@;
        let ghost gdigits = self.digits@;
        let mut blob = blob_in;
        let pv_off: u32 = blob_offset;
        let pv = self.preview_img_data.to_bin();
        let mut pv_moved = pv;
        blob.append(&mut pv_moved);
        // assemble the final buffer
        let mut data: Vec<u8> = Vec::new();
        push_u16(&mut data, self.api_ver);
        push_u16(&mut data, self.unknown);
        push_u32(&mut data, pv_off);
        push_u16(&mut data, self.preview_img_data.w);
        push_u16(&mut data, self.preview_img_data.h);
        let dh_off: u16 = if self.digits.len() > 0 {
            16
        } else {
            0
        };
        push_u16(&mut data, dh_off);
        push_u16(&mut data, (16 + digits_header_size) as u16);
        let ghost m_hdr = data@;
        if self.digits.len() > 0 {
            data.push(0x01);
            data.push(0x01);
            let mut db_moved = digits_buf;
            data.append(&mut db_moved);
        }
        let ghost m_digits = data@;
        let mut eh_moved = elems_hdr;
        data.append(&mut eh_moved);
        data.push(0);
        data.push(0);
        proof {
            assert(data@.len() == 16 + digits_hdr_size_spec(gdigits) + elems_size_sum(gelems)
                + 2);
        }
        let mut p: usize = 0;
        let pad_n: usize = pad as usize;
        let ghost m_term = data@;
        while p < pad_n
            invariant
                p <= pad_n,
                data@ == m_term + Seq::new(p as nat, |j: int| 0u8),
            decreases pad_n - p,
        {
            data.push(0);
            proof {
                assert(data@ =~= m_term + Seq::new((p + 1) as nat, |j: int| 0u8));
            }
            p = p + 1;
        }
        let ghost m_pad = data@;
        let mut blob_moved = blob;
        data.append(&mut blob_moved);
        proof {
            let dhs = digits_hdr_size_spec(gdigits);
            let esum = elems_size_sum(gelems);
            let epay = elems_pay_bytes(gelems);
            let dpay = digits_pay_bytes(gdigits);
            assert(pad as int == pad4_spec(16 + dhs + esum + 2));
            assert(pv_off as int == blob0 + epay.len() + dpay.len());
            assert(data@ == face_bin_bytes(*self)) by {
                reveal(face_bin_bytes);
            }
            lemma_face_bin_ok(*self);
        }
        data
    }
}

/// Restatement of the pointer-record length fact for use outside the
/// elements module.
pub proof fn lemma_owh_seq_len_pub(ids: Seq<ImgData>, off: int)
    ensures
        owh_seq_bytes(ids, off).len() == 8 * ids.len(),
    decreases ids.len(),
{
    if ids.len() > 0 {
        lemma_owh_seq_len_pub(ids.drop_first(), off + crate::elements::img_pay_len(ids[0]));
    }
}

#[verifier::rlimit(100)]
proof fn lemma_pay_take_snoc(elems: Seq<Element>, i: int)
    requires
        0 <= i < elems.len(),
    ensures
        elems_pay_bytes(elems.take(i + 1)) == elems_pay_bytes(elems.take(i)) + elem_pay(elems[i]),
    decreases i,
{
    let t1 = elems.take(i + 1);
    let t0 = elems.take(i);
    if i == 0 {
        assert(t1.drop_first() =~= Seq::<Element>::empty());
        assert(t1[0] == elems[0]);
        assert(elems_pay_bytes(Seq::<Element>::empty()) == Seq::<u8>::empty());
        assert(t0 =~= Seq::<Element>::empty());
        assert(elems_pay_bytes(t1) =~= elem_pay(elems[0]));
        assert(elems_pay_bytes(t0) + elem_pay(elems[0]) =~= elem_pay(elems[0]));
    } else {
        lemma_pay_take_snoc(elems.drop_first(), i - 1);
        assert(t1.drop_first() =~= elems.drop_first().take(i));
        assert(t0.drop_first() =~= elems.drop_first().take(i - 1));
        assert(elems.drop_first()[i - 1] == elems[i]);
        assert(t1[0] == elems[0] && t0[0] == elems[0]);
        assert(elems_pay_bytes(t1) =~= elem_pay(elems[0]) + elems_pay_bytes(
            elems.drop_first().take(i),
        ));
        assert(elems_pay_bytes(t0) =~= elem_pay(elems[0]) + elems_pay_bytes(
            elems.drop_first().take(i - 1),
        ));
        assert(elem_pay(elems[0]) + (elems_pay_bytes(elems.drop_first().take(i - 1)) + elem_pay(
            elems[i],
        )) =~= (elem_pay(elems[0]) + elems_pay_bytes(elems.drop_first().take(i - 1))) + elem_pay(
            elems[i],
        ));
    }
}

#[verifier::rlimit(100)]
proof fn lemma_hdr_take_snoc(elems: Seq<Element>, i: int, off0: int)
    requires
        0 <= i < elems.len(),
    ensures
        elems_hdr_bytes(elems.take(i + 1), off0) == elems_hdr_bytes(elems.take(i), off0)
            + elem_bytes(elems[i], off0 + elems_pay_bytes(elems.take(i)).len()),
    decreases i,
{
    let t1 = elems.take(i + 1);
    let t0 = elems.take(i);
    if i == 0 {
        assert(t1.drop_first() =~= Seq::<Element>::empty());
        assert(t1[0] == elems[0]);
        assert(elems_hdr_bytes(Seq::<Element>::empty(), off0 + elem_pay(elems[0]).len())
            == Seq::<u8>::empty());
        assert(t0 =~= Seq::<Element>::empty());
        assert(elems_hdr_bytes(t1, off0) =~= elem_bytes(elems[0], off0));
        assert(elems_hdr_bytes(t0, off0) + elem_bytes(elems[0], off0) =~= elem_bytes(
            elems[0],
            off0,
        ));
        assert(elems_pay_bytes(t0) =~= Seq::<u8>::empty());
    } else {
        lemma_hdr_take_snoc(elems.drop_first(), i - 1, off0 + elem_pay(elems[0]).len());
        assert(t1.drop_first() =~= elems.drop_first().take(i));
        assert(t0.drop_first() =~= elems.drop_first().take(i - 1));
        assert(elems.drop_first()[i - 1] == elems[i]);
        assert(t1[0] == elems[0] && t0[0] == elems[0]);
        assert(elems_pay_bytes(t0) =~= elem_pay(elems[0]) + elems_pay_bytes(
            elems.drop_first().take(i - 1),
        ));
        let off1 = off0 + elem_pay(elems[0]).len();
        assert(elems_hdr_bytes(t1, off0) =~= elem_bytes(elems[0], off0) + elems_hdr_bytes(
            elems.drop_first().take(i),
            off1,
        ));
        assert(elems_hdr_bytes(t0, off0) =~= elem_bytes(elems[0], off0) + elems_hdr_bytes(
            elems.drop_first().take(i - 1),
            off1,
        ));
        assert(elem_bytes(elems[0], off0) + (elems_hdr_bytes(elems.drop_first().take(i - 1), off1)
            + elem_bytes(elems[i], off1 + elems_pay_bytes(elems.drop_first().take(i - 1)).len()))
            =~= (elem_bytes(elems[0], off0) + elems_hdr_bytes(elems.drop_first().take(i - 1), off1))
            + elem_bytes(elems[i], off1 + elems_pay_bytes(elems.drop_first().take(i - 1)).len()));
    }
}

#[verifier::rlimit(100)]
proof fn lemma_digits_pay_take_snoc(ds: Seq<Digits>, k: int)
    requires
        0 <= k < ds.len(),
    ensures
        digits_pay_bytes(ds.take(k + 1)) == digits_pay_bytes(ds.take(k)) + pay_seq_bytes(
            ds[k].img_data@,
        ),
    decreases k,
{
    let t1 = ds.take(k + 1);
    let t0 = ds.take(k);
    if k == 0 {
        assert(t1.drop_first() =~= Seq::<Digits>::empty());
        assert(t1[0] == ds[0]);
        assert(digits_pay_bytes(Seq::<Digits>::empty()) == Seq::<u8>::empty());
        assert(t0 =~= Seq::<Digits>::empty());
        assert(digits_pay_bytes(t1) =~= pay_seq_bytes(ds[0].img_data@));
        assert(digits_pay_bytes(t0) + pay_seq_bytes(ds[0].img_data@) =~= pay_seq_bytes(
            ds[0].img_data@,
        ));
    } else {
        lemma_digits_pay_take_snoc(ds.drop_first(), k - 1);
        assert(t1.drop_first() =~= ds.drop_first().take(k));
        assert(t0.drop_first() =~= ds.drop_first().take(k - 1));
        assert(ds.drop_first()[k - 1] == ds[k]);
        assert(t1[0] == ds[0] && t0[0] == ds[0]);
        assert(digits_pay_bytes(t1) =~= pay_seq_bytes(ds[0].img_data@) + digits_pay_bytes(
            ds.drop_first().take(k),
        ));
        assert(digits_pay_bytes(t0) =~= pay_seq_bytes(ds[0].img_data@) + digits_pay_bytes(
            ds.drop_first().take(k - 1),
        ));
        assert(pay_seq_bytes(ds[0].img_data@) + (digits_pay_bytes(ds.drop_first().take(k - 1))
            + pay_seq_bytes(ds[k].img_data@)) =~= (pay_seq_bytes(ds[0].img_data@)
            + digits_pay_bytes(ds.drop_first().take(k - 1))) + pay_seq_bytes(ds[k].img_data@));
    }
}

proof fn lemma_digits_rec_take_snoc(ds: Seq<Digits>, k: int, off0: int)
    requires
        0 <= k < ds.len(),
    ensures
        digits_rec_bytes(ds.take(k + 1), 0, off0) == digits_rec_bytes(ds.take(k), 0, off0) + (
        seq![k as u8] + owh_seq_bytes(
            ds[k].img_data@,
            off0 + digits_pay_bytes(ds.take(k)).len(),
        ) + u16_le_bytes(ds[k].unknown)),
{
    lemma_digits_rec_take_snoc_gen(ds, k, 0, off0);
}

#[verifier::rlimit(100)]
proof fn lemma_digits_rec_take_snoc_gen(ds: Seq<Digits>, k: int, idx: int, off0: int)
    requires
        0 <= k < ds.len(),
    ensures
        digits_rec_bytes(ds.take(k + 1), idx, off0) == digits_rec_bytes(ds.take(k), idx, off0) + (
        seq![(idx + k) as u8] + owh_seq_bytes(
            ds[k].img_data@,
            off0 + digits_pay_bytes(ds.take(k)).len(),
        ) + u16_le_bytes(ds[k].unknown)),
    decreases k,
{
    let t1 = ds.take(k + 1);
    let t0 = ds.take(k);
    if k == 0 {
        assert(t1.drop_first() =~= Seq::<Digits>::empty());
        assert(t1[0] == ds[0]);
        assert(digits_rec_bytes(Seq::<Digits>::empty(), idx + 1, off0 + pay_seq_bytes(
            ds[0].img_data@,
        ).len()) == Seq::<u8>::empty());
        assert(t0 =~= Seq::<Digits>::empty());
        let rec = seq![idx as u8] + owh_seq_bytes(ds[0].img_data@, off0) + u16_le_bytes(
            ds[0].unknown,
        );
        assert(digits_rec_bytes(t1, idx, off0) =~= rec);
        assert(digits_rec_bytes(t0, idx, off0) + rec =~= rec);
        assert(digits_pay_bytes(t0) =~= Seq::<u8>::empty());
    } else {
        lemma_digits_rec_take_snoc_gen(ds.drop_first(), k - 1, idx + 1, off0 + pay_seq_bytes(
            ds[0].img_data@,
        ).len());
        assert(t1.drop_first() =~= ds.drop_first().take(k));
        assert(t0.drop_first() =~= ds.drop_first().take(k - 1));
        assert(ds.drop_first()[k - 1] == ds[k]);
        assert(t1[0] == ds[0] && t0[0] == ds[0]);
        let head = seq![idx as u8] + owh_seq_bytes(ds[0].img_data@, off0) + u16_le_bytes(
            ds[0].unknown,
        );
        let off1 = off0 + pay_seq_bytes(ds[0].img_data@).len();
        assert(digits_pay_bytes(t0) =~= pay_seq_bytes(ds[0].img_data@) + digits_pay_bytes(
            ds.drop_first().take(k - 1),
        ));
        assert(digits_rec_bytes(t1, idx, off0) =~= head + digits_rec_bytes(
            ds.drop_first().take(k),
            idx + 1,
            off1,
        ));
        assert(digits_rec_bytes(t0, idx, off0) =~= head + digits_rec_bytes(
            ds.drop_first().take(k - 1),
            idx + 1,
            off1,
        ));
        let rec = seq![(idx + k) as u8] + owh_seq_bytes(
            ds[k].img_data@,
            off1 + digits_pay_bytes(ds.drop_first().take(k - 1)).len(),
        ) + u16_le_bytes(ds[k].unknown);
        assert(head + (digits_rec_bytes(ds.drop_first().take(k - 1), idx + 1, off1) + rec) =~= (
        head + digits_rec_bytes(ds.drop_first().take(k - 1), idx + 1, off1)) + rec);
    }
}

/// What the serialized face looks like: the header fields at their fixed
/// places, the element header region, the terminator, the aligned blob
/// region with the element payloads, the digit table and its payloads, and
/// the preview image at the patched, 4-byte-aligned offset that ends the
/// file.
pub open spec fn face_bin_ok(f: FaceN, b: Seq<u8>) -> bool {
    let dhs = digits_hdr_size_spec(f.digits@);
    let esum = elems_size_sum(f.elements@);
    let blob0 = align4_spec(16 + dhs + esum + 2);
    let epay = elems_pay_bytes(f.elements@);
    let dpay = digits_pay_bytes(f.digits@);
    let pv_off = blob0 + epay.len() + dpay.len();
    &&& le16_at(b, 0) == f.api_ver
    &&& le16_at(b, 2) == f.unknown
    &&& crate::util::le32_at(b, 4) == pv_off
    &&& pv_off % 4 == 0
    &&& le16_at(b, 8) == f.preview_img_data.w
    &&& le16_at(b, 10) == f.preview_img_data.h
    &&& le16_at(b, 12) == (if f.digits@.len() > 0 {
        16int
    } else {
        0int
    })
    &&& le16_at(b, 14) == 16 + dhs
    &&& b.len() == pv_off + crate::elements::img_pay_len(f.preview_img_data)
    &&& b.subrange(16 + dhs, 16 + dhs + esum) == elems_hdr_bytes(f.elements@, blob0)
    &&& b[16 + dhs + esum] == 0 && b[16 + dhs + esum + 1] == 0
    &&& b.subrange(blob0, blob0 + epay.len()) == epay
    &&& (f.digits@.len() > 0 ==> le16_at(b, 16) == 0x0101 && b.subrange(18, 16 + dhs)
        == digits_rec_bytes(f.digits@, 0, blob0 + epay.len()))
    &&& b.subrange(pv_off, b.len() as int) == crate::elements::img_pay(f.preview_img_data)
}

/// The serialized face, byte for byte.
#[verifier::opaque]
pub open spec fn face_bin_bytes(f: FaceN) -> Seq<u8> {
    let dhs = digits_hdr_size_spec(f.digits@);
    let esum = elems_size_sum(f.elements@);
    let blob0 = align4_spec(16 + dhs + esum + 2);
    let epay = elems_pay_bytes(f.elements@);
    let dpay = digits_pay_bytes(f.digits@);
    let pv_off = blob0 + epay.len() + dpay.len();
    let m_hdr = Seq::<u8>::empty() + u16_le_bytes(f.api_ver) + u16_le_bytes(f.unknown)
        + u32_le_bytes(pv_off as u32) + u16_le_bytes(f.preview_img_data.w) + u16_le_bytes(
        f.preview_img_data.h,
    ) + u16_le_bytes(
        if f.digits@.len() > 0 {
            16u16
        } else {
            0u16
        },
    ) + u16_le_bytes((16 + dhs) as u16);
    let m_digits = if f.digits@.len() > 0 {
        m_hdr.push(1u8).push(1u8) + digits_rec_bytes(f.digits@, 0, blob0 + epay.len())
    } else {
        m_hdr
    };
    let m_term = (m_digits + elems_hdr_bytes(f.elements@, blob0)).push(0u8).push(0u8);
    let m_pad = m_term + Seq::new(pad4_spec(16 + dhs + esum + 2) as nat, |j: int| 0u8);
    m_pad + ((epay + dpay) + crate::util::padded4_ff(
        f.preview_img_data.header@ + f.preview_img_data.data@,
    ))
}

/// The serializer's assembled parts, in exactly the shape the emission
/// code produces them.
#[verifier::opaque]
pub open spec fn face_layout_pre(f: FaceN, b: Seq<u8>, m_hdr: Seq<u8>, m_digits: Seq<u8>,
    m_term: Seq<u8>, m_pad: Seq<u8>, padn: nat, blob0: int, epay_len: int, pv_off: int) -> bool {
    let dhs = digits_hdr_size_spec(f.digits@);
    let esum = elems_size_sum(f.elements@);
    let epay = elems_pay_bytes(f.elements@);
    let dpay = digits_pay_bytes(f.digits@);
    &&& m_hdr == Seq::<u8>::empty() + u16_le_bytes(f.api_ver) + u16_le_bytes(f.unknown)
        + u32_le_bytes(pv_off as u32) + u16_le_bytes(f.preview_img_data.w) + u16_le_bytes(
        f.preview_img_data.h,
    ) + u16_le_bytes(
        if f.digits@.len() > 0 {
            16u16
        } else {
            0u16
        },
    ) + u16_le_bytes((16 + dhs) as u16)
    &&& m_digits == (if f.digits@.len() > 0 {
        m_hdr.push(1u8).push(1u8) + digits_rec_bytes(f.digits@, 0, blob0 + epay_len)
    } else {
        m_hdr
    })
    &&& m_term == (m_digits + elems_hdr_bytes(f.elements@, blob0)).push(0u8).push(0u8)
    &&& padn == pad4_spec(16 + dhs + esum + 2)
    &&& m_pad == m_term + Seq::new(padn, |j: int| 0u8)
    &&& b == m_pad + ((epay + dpay) + crate::util::padded4_ff(
        f.preview_img_data.header@ + f.preview_img_data.data@,
    ))
    &&& epay_len == epay.len()
    &&& blob0 == align4_spec(16 + dhs + esum + 2)
    &&& pv_off == blob0 + epay.len() + dpay.len()
    &&& 16 + dhs <= 0xFFFF
    &&& blob0 <= 0xFFFF_FFFF
    &&& pv_off <= 0xFFFF_FFFF
    &&& digits_rec_bytes(f.digits@, 0, blob0 + epay_len).len() == 83 * f.digits@.len()
    &&& elems_hdr_bytes(f.elements@, blob0).len() == esum
}



#[verifier::rlimit(100)]
#[verifier::spinoff_prover]
proof fn lemma_face_bin_regions_ok(f: FaceN)
    requires
        ({
            let dhs = digits_hdr_size_spec(f.digits@);
            let esum = elems_size_sum(f.elements@);
            let blob0 = align4_spec(16 + dhs + esum + 2);
            let epay = elems_pay_bytes(f.elements@);
            let dpay = digits_pay_bytes(f.digits@);
            &&& 16 + dhs <= 0xFFFF
            &&& blob0 <= 0xFFFF_FFFF
            &&& blob0 + epay.len() + dpay.len() <= 0xFFFF_FFFF
            &&& digits_rec_bytes(f.digits@, 0, blob0 + epay.len()).len() == 83 * f.digits@.len()
            &&& elems_hdr_bytes(f.elements@, blob0).len() == esum
        }),
    ensures
        ({
            let dhs = digits_hdr_size_spec(f.digits@);
            let esum = elems_size_sum(f.elements@);
            let blob0 = align4_spec(16 + dhs + esum + 2);
            let epay = elems_pay_bytes(f.elements@);
            let dpay = digits_pay_bytes(f.digits@);
            let pv_off = blob0 + epay.len() + dpay.len();
            let b = face_bin_bytes(f);
            &&& b.subrange(16 + dhs, 16 + dhs + esum) == elems_hdr_bytes(f.elements@, blob0)
            &&& b[16 + dhs + esum] == 0 && b[16 + dhs + esum + 1] == 0
            &&& b.subrange(blob0, blob0 + epay.len()) == epay
            &&& (f.digits@.len() > 0 ==> b.subrange(18, 16 + dhs) == digits_rec_bytes(
                f.digits@,
                0,
                blob0 + epay.len(),
            ))
            &&& b.subrange(pv_off, b.len() as int) == crate::elements::img_pay(
                f.preview_img_data,
            )
            &&& b.subrange(0, 16) == (Seq::<u8>::empty() + u16_le_bytes(f.api_ver)
                + u16_le_bytes(f.unknown) + u32_le_bytes(pv_off as u32) + u16_le_bytes(
                f.preview_img_data.w,
            ) + u16_le_bytes(f.preview_img_data.h) + u16_le_bytes(
                if f.digits@.len() > 0 {
                    16u16
                } else {
                    0u16
                },
            ) + u16_le_bytes((16 + dhs) as u16))
            &&& (f.digits@.len() > 0 ==> b.subrange(16, 18) == seq![1u8, 1u8])
            &&& b.len() == pv_off + crate::elements::img_pay_len(f.preview_img_data)
        }),
{
    let dhs = digits_hdr_size_spec(f.digits@);
    let esum = elems_size_sum(f.elements@);
    let blob0 = align4_spec(16 + dhs + esum + 2);
    let epay = elems_pay_bytes(f.elements@);
    let dpay = digits_pay_bytes(f.digits@);
    let pv_off = blob0 + epay.len() + dpay.len();
    let m_hdr = Seq::<u8>::empty() + u16_le_bytes(f.api_ver) + u16_le_bytes(f.unknown)
        + u32_le_bytes(pv_off as u32) + u16_le_bytes(f.preview_img_data.w) + u16_le_bytes(
        f.preview_img_data.h,
    ) + u16_le_bytes(
        if f.digits@.len() > 0 {
            16u16
        } else {
            0u16
        },
    ) + u16_le_bytes((16 + dhs) as u16);
    let m_digits = if f.digits@.len() > 0 {
        m_hdr.push(1u8).push(1u8) + digits_rec_bytes(f.digits@, 0, blob0 + epay.len())
    } else {
        m_hdr
    };
    let m_term = (m_digits + elems_hdr_bytes(f.elements@, blob0)).push(0u8).push(0u8);
    let padn = pad4_spec(16 + dhs + esum + 2) as nat;
    let m_pad = m_term + Seq::new(padn, |j: int| 0u8);
    let b = face_bin_bytes(f);
    assert(b == m_pad + ((epay + dpay) + crate::util::padded4_ff(
        f.preview_img_data.header@ + f.preview_img_data.data@,
    ))) by {
        reveal(face_bin_bytes);
    }
    assert(face_layout_pre(f, b, m_hdr, m_digits, m_term, m_pad, padn, blob0, epay.len() as int,
        pv_off)) by {
        reveal(face_layout_pre);
        reveal(face_bin_bytes);
    }
    lemma_face_bytes_regions(f, b, m_hdr, m_digits, m_term, m_pad, padn, blob0,
        epay.len() as int, pv_off);
}

#[verifier::rlimit(100)]
#[verifier::spinoff_prover]
proof fn lemma_fields_from_prefix(f: FaceN, b: Seq<u8>, pv_off: int, dhs: int)
    requires
        dhs == digits_hdr_size_spec(f.digits@),
        0 <= pv_off <= 0xFFFF_FFFF,
        16 + dhs <= 0xFFFF,
        b.len() >= 18,
        b.subrange(0, 16) == (Seq::<u8>::empty() + u16_le_bytes(f.api_ver) + u16_le_bytes(
            f.unknown,
        ) + u32_le_bytes(pv_off as u32) + u16_le_bytes(f.preview_img_data.w) + u16_le_bytes(
            f.preview_img_data.h,
        ) + u16_le_bytes(
            if f.digits@.len() > 0 {
                16u16
            } else {
                0u16
            },
        ) + u16_le_bytes((16 + dhs) as u16)),
        f.digits@.len() > 0 ==> b.subrange(16, 18) == seq![1u8, 1u8],
    ensures
        le16_at(b, 0) == f.api_ver,
        le16_at(b, 2) == f.unknown,
        crate::util::le32_at(b, 4) == pv_off,
        le16_at(b, 8) == f.preview_img_data.w,
        le16_at(b, 10) == f.preview_img_data.h,
        le16_at(b, 12) == (if f.digits@.len() > 0 {
            16int
        } else {
            0int
        }),
        le16_at(b, 14) == 16 + dhs,
        f.digits@.len() > 0 ==> le16_at(b, 16) == 0x0101,
{
    let m_hdr = b.subrange(0, 16);
    lemma_hdr_prefix_fields(f, m_hdr, pv_off, dhs);
    assert forall|i: int| 0 <= i < 16 implies b[i] == m_hdr[i] by {
        assert(b.subrange(0, 16)[i] == b[i]);
    }
    assert(le16_at(b, 0) == le16_at(m_hdr, 0));
    assert(le16_at(b, 2) == le16_at(m_hdr, 2));
    assert(crate::util::le32_at(b, 4) == crate::util::le32_at(m_hdr, 4));
    assert(le16_at(b, 8) == le16_at(m_hdr, 8));
    assert(le16_at(b, 10) == le16_at(m_hdr, 10));
    assert(le16_at(b, 12) == le16_at(m_hdr, 12));
    assert(le16_at(b, 14) == le16_at(m_hdr, 14));
    if f.digits@.len() > 0 {
        assert(b.subrange(16, 18)[0] == b[16] && b.subrange(16, 18)[1] == b[17]);
        assert(le16_at(b, 16) == 0x0101);
    }
}

#[verifier::rlimit(100)]
#[verifier::spinoff_prover]
proof fn lemma_face_pv_mod4(f: FaceN)
    requires
        elems_size_sum(f.elements@) >= 0,
    ensures
        ({
            let dhs = digits_hdr_size_spec(f.digits@);
            let esum = elems_size_sum(f.elements@);
            let blob0 = align4_spec(16 + dhs + esum + 2);
            (blob0 + elems_pay_bytes(f.elements@).len() + digits_pay_bytes(f.digits@).len()) % 4
                == 0
        }),
{
    let dhs = digits_hdr_size_spec(f.digits@);
    let esum = elems_size_sum(f.elements@);
    let blob0 = align4_spec(16 + dhs + esum + 2);
    lemma_epay_mod4(f.elements@);
    lemma_dpay_mod4(f.digits@);
    assert(blob0 % 4 == 0) by (nonlinear_arith)
        requires
            blob0 == align4_spec(16 + dhs + esum + 2),
            16 + dhs + esum + 2 >= 0,
            align4_spec(16 + dhs + esum + 2) == (16 + dhs + esum + 2) + (if (16 + dhs + esum + 2)
                % 4 == 0 {
                0int
            } else {
                4 - (16 + dhs + esum + 2) % 4
            }),
    ;
    lemma_mod4_add(blob0, elems_pay_bytes(f.elements@).len() as int);
    lemma_mod4_add(
        blob0 + elems_pay_bytes(f.elements@).len(),
        digits_pay_bytes(f.digits@).len() as int,
    );
}

#[verifier::rlimit(100)]
#[verifier::spinoff_prover]
proof fn lemma_face_bin_ok(f: FaceN)
    requires
        ({
            let dhs = digits_hdr_size_spec(f.digits@);
            let esum = elems_size_sum(f.elements@);
            let blob0 = align4_spec(16 + dhs + esum + 2);
            let epay = elems_pay_bytes(f.elements@);
            let dpay = digits_pay_bytes(f.digits@);
            &&& 16 + dhs <= 0xFFFF
            &&& blob0 <= 0xFFFF_FFFF
            &&& blob0 + epay.len() + dpay.len() <= 0xFFFF_FFFF
            &&& digits_rec_bytes(f.digits@, 0, blob0 + epay.len()).len() == 83 * f.digits@.len()
            &&& elems_hdr_bytes(f.elements@, blob0).len() == esum
        }),
    ensures
        face_bin_ok(f, face_bin_bytes(f)),
{
    let dhs = digits_hdr_size_spec(f.digits@);
    let esum = elems_size_sum(f.elements@);
    let blob0 = align4_spec(16 + dhs + esum + 2);
    let epay = elems_pay_bytes(f.elements@);
    let dpay = digits_pay_bytes(f.digits@);
    let pv_off = blob0 + epay.len() + dpay.len();
    let b = face_bin_bytes(f);
    lemma_face_bin_regions_ok(f);
    lemma_fields_from_prefix(f, b, pv_off, dhs);
    assert(esum >= 0);
    lemma_face_pv_mod4(f);
}

#[verifier::rlimit(100)]
#[verifier::spinoff_prover]
proof fn lemma_hdr_prefix_fields(f: FaceN, m_hdr: Seq<u8>, pv_off: int, dhs: int)
    requires
        dhs == digits_hdr_size_spec(f.digits@),
        0 <= pv_off <= 0xFFFF_FFFF,
        16 + dhs <= 0xFFFF,
        m_hdr == Seq::<u8>::empty() + u16_le_bytes(f.api_ver) + u16_le_bytes(f.unknown)
            + u32_le_bytes(pv_off as u32) + u16_le_bytes(f.preview_img_data.w) + u16_le_bytes(
            f.preview_img_data.h,
        ) + u16_le_bytes(
            if f.digits@.len() > 0 {
                16u16
            } else {
                0u16
            },
        ) + u16_le_bytes((16 + dhs) as u16),
    ensures
        m_hdr.len() == 16,
        le16_at(m_hdr, 0) == f.api_ver,
        le16_at(m_hdr, 2) == f.unknown,
        crate::util::le32_at(m_hdr, 4) == pv_off,
        le16_at(m_hdr, 8) == f.preview_img_data.w,
        le16_at(m_hdr, 10) == f.preview_img_data.h,
        le16_at(m_hdr, 12) == (if f.digits@.len() > 0 {
            16int
        } else {
            0int
        }),
        le16_at(m_hdr, 14) == 16 + dhs,
{
    crate::util::lemma_le16_roundtrip(f.api_ver);
    crate::util::lemma_le16_roundtrip(f.unknown);
    crate::util::lemma_le32_roundtrip(pv_off as u32);
    crate::util::lemma_le16_roundtrip(f.preview_img_data.w);
    crate::util::lemma_le16_roundtrip(f.preview_img_data.h);
    crate::util::lemma_le16_roundtrip(
        if f.digits@.len() > 0 {
            16u16
        } else {
            0u16
        },
    );
    crate::util::lemma_le16_roundtrip((16 + dhs) as u16);
    assert(m_hdr[0] == u16_le_bytes(f.api_ver)[0] && m_hdr[1] == u16_le_bytes(f.api_ver)[1]);
    assert(m_hdr[2] == u16_le_bytes(f.unknown)[0] && m_hdr[3] == u16_le_bytes(f.unknown)[1]);
    assert(m_hdr[4] == u32_le_bytes(pv_off as u32)[0] && m_hdr[5] == u32_le_bytes(
        pv_off as u32,
    )[1] && m_hdr[6] == u32_le_bytes(pv_off as u32)[2] && m_hdr[7] == u32_le_bytes(
        pv_off as u32,
    )[3]);
    assert(m_hdr[8] == u16_le_bytes(f.preview_img_data.w)[0] && m_hdr[9] == u16_le_bytes(
        f.preview_img_data.w,
    )[1]);
    assert(m_hdr[10] == u16_le_bytes(f.preview_img_data.h)[0] && m_hdr[11] == u16_le_bytes(
        f.preview_img_data.h,
    )[1]);
    assert(m_hdr[14] == u16_le_bytes((16 + dhs) as u16)[0] && m_hdr[15] == u16_le_bytes(
        (16 + dhs) as u16,
    )[1]);
}

#[verifier::rlimit(100)]
#[verifier::spinoff_prover]
proof fn lemma_face_bytes_regions(f: FaceN, b: Seq<u8>, m_hdr: Seq<u8>, m_digits: Seq<u8>,
    m_term: Seq<u8>, m_pad: Seq<u8>, padn: nat, blob0: int, epay_len: int, pv_off: int)
    requires
        face_layout_pre(f, b, m_hdr, m_digits, m_term, m_pad, padn, blob0, epay_len, pv_off),
    ensures
        ({
            let dhs = digits_hdr_size_spec(f.digits@);
            let esum = elems_size_sum(f.elements@);
            let epay = elems_pay_bytes(f.elements@);
            &&& b.subrange(16 + dhs, 16 + dhs + esum) == elems_hdr_bytes(f.elements@, blob0)
            &&& b[16 + dhs + esum] == 0 && b[16 + dhs + esum + 1] == 0
            &&& b.subrange(blob0, blob0 + epay.len()) == epay
            &&& (f.digits@.len() > 0 ==> b.subrange(18, 16 + dhs) == digits_rec_bytes(
                f.digits@,
                0,
                blob0 + epay_len,
            ))
            &&& b.subrange(pv_off, b.len() as int) == crate::elements::img_pay(
                f.preview_img_data,
            )
            &&& b.subrange(0, 16) == m_hdr
            &&& (f.digits@.len() > 0 ==> b.subrange(16, 18) == seq![1u8, 1u8])
            &&& b.len() == pv_off + crate::elements::img_pay_len(f.preview_img_data)
        }),
{
    reveal(face_layout_pre);
    let dhs = digits_hdr_size_spec(f.digits@);
    let esum = elems_size_sum(f.elements@);
    let epay = elems_pay_bytes(f.elements@);
    assert(m_hdr.len() == 16);
    assert(m_digits.len() == 16 + dhs);
    assert(m_term.len() == 16 + dhs + esum + 2);
    assert(m_pad.len() == blob0);
    assert(b.subrange(0, 16) =~= m_hdr);
    if f.digits@.len() > 0 {
        assert(b.subrange(16, 18) =~= seq![1u8, 1u8]);
    }
    assert(b.subrange(16 + dhs, 16 + dhs + esum) =~= elems_hdr_bytes(f.elements@, blob0));
    assert(b.subrange(blob0, blob0 + epay.len()) =~= epay);
    if f.digits@.len() > 0 {
        assert(b.subrange(18, 16 + dhs) =~= digits_rec_bytes(f.digits@, 0, blob0 + epay_len));
    }
    assert(b.subrange(pv_off, b.len() as int) =~= crate::util::padded4_ff(
        f.preview_img_data.header@ + f.preview_img_data.data@,
    ));
}





proof fn lemma_mod4_add(a: int, b: int)
    requires
        a % 4 == 0,
        b % 4 == 0,
        a >= 0,
        b >= 0,
    ensures
        (a + b) % 4 == 0,
{
    assert((a + b) % 4 == 0) by (nonlinear_arith)
        requires
            a % 4 == 0,
            b % 4 == 0,
            a >= 0,
            b >= 0,
    ;
}

proof fn lemma_img_pay_mod4(id: ImgData)
    ensures
        crate::elements::img_pay(id).len() % 4 == 0,
{
    let n = (id.header@ + id.data@).len() as int;
    assert(crate::elements::img_pay(id).len() == align4_spec(n));
    assert(align4_spec(n) % 4 == 0) by (nonlinear_arith)
        requires
            n >= 0,
            align4_spec(n) == (if n % 4 == 0 {
                n + 0
            } else {
                n + (4 - n % 4)
            }),
    ;
}

/// Every image payload is already padded, so payload runs keep every blob
/// offset on a 4-byte boundary.
proof fn lemma_pay_seq_mod4(ids: Seq<ImgData>)
    ensures
        pay_seq_bytes(ids).len() % 4 == 0,
    decreases ids.len(),
{
    if ids.len() > 0 {
        lemma_pay_seq_mod4(ids.drop_first());
        lemma_img_pay_mod4(ids[0]);
        lemma_mod4_add(
            crate::elements::img_pay(ids[0]).len() as int,
            pay_seq_bytes(ids.drop_first()).len() as int,
        );
    }
}

#[verifier::rlimit(100)]
proof fn lemma_epay_mod4(elems: Seq<Element>)
    ensures
        elems_pay_bytes(elems).len() % 4 == 0,
    decreases elems.len(),
{
    if elems.len() > 0 {
        lemma_epay_mod4(elems.drop_first());
        match elems[0] {
            Element::DayName(v) => lemma_pay_seq_mod4(v.img_data@),
            Element::BarDisplay(v) => lemma_pay_seq_mod4(v.img_data@),
            Element::Weather(v) => lemma_pay_seq_mod4(v.img_data@),
            Element::Image(v) => lemma_img_pay_mod4(v.img_data),
            Element::TimeHand(v) => lemma_img_pay_mod4(v.img_data),
            Element::Dash(v) => lemma_img_pay_mod4(v.img_data),
            Element::BatteryFill(v) => {
                lemma_img_pay_mod4(v.img_data);
                lemma_img_pay_mod4(v.image_data1);
                lemma_img_pay_mod4(v.image_data2);
                lemma_mod4_add(
                    crate::elements::img_pay(v.img_data).len() as int,
                    crate::elements::img_pay(v.image_data1).len() as int,
                );
                lemma_mod4_add(
                    crate::elements::img_pay(v.img_data).len() + crate::elements::img_pay(
                        v.image_data1,
                    ).len() as int,
                    crate::elements::img_pay(v.image_data2).len() as int,
                );
            },
            _ => {
            },
        }
        assert(elem_pay(elems[0]).len() % 4 == 0);
        lemma_mod4_add(
            elem_pay(elems[0]).len() as int,
            elems_pay_bytes(elems.drop_first()).len() as int,
        );
    }
}

proof fn lemma_dpay_mod4(ds: Seq<Digits>)
    ensures
        digits_pay_bytes(ds).len() % 4 == 0,
    decreases ds.len(),
{
    if ds.len() > 0 {
        lemma_dpay_mod4(ds.drop_first());
        lemma_pay_seq_mod4(ds[0].img_data@);
        lemma_mod4_add(
            pay_seq_bytes(ds[0].img_data@).len() as int,
            digits_pay_bytes(ds.drop_first()).len() as int,
        );
    }
}

/// The decimal digits of `n`, most significant first.
pub open spec fn dec_chars(n: int) -> Seq<char>
    decreases n,
{
    if n < 10 {
        seq![dec_digit(n)]
    } else {
        dec_chars(n / 10) + seq![dec_digit(n % 10)]
    }
}

/// The character for one decimal digit.
pub open spec fn dec_digit(d: int) -> char {
    if d == 0 {
        '0'
    } else if d == 1 {
        '1'
    } else if d == 2 {
        '2'
    } else if d == 3 {
        '3'
    } else if d == 4 {
        '4'
    } else if d == 5 {
        '5'
    } else if d == 6 {
        '6'
    } else if d == 7 {
        '7'
    } else if d == 8 {
        '8'
    } else {
        '9'
    }
}

/// Write `n` in decimal.
pub fn usize_to_string(n: usize) -> (s: String)
    ensures
        s@ == dec_chars(n as int),
    decreases n,
{
    let d = n % 10;
    let c: &str = if d == 0 {
        "0"
    } else if d == 1 {
        "1"
    } else if d == 2 {
        "2"
    } else if d == 3 {
        "3"
    } else if d == 4 {
        "4"
    } else if d == 5 {
        "5"
    } else if d == 6 {
        "6"
    } else if d == 7 {
        "7"
    } else if d == 8 {
        "8"
    } else {
        "9"
    };
    proof {
        reveal_strlit("0");
        reveal_strlit("1");
        reveal_strlit("2");
        reveal_strlit("3");
        reveal_strlit("4");
        reveal_strlit("5");
        reveal_strlit("6");
        reveal_strlit("7");
        reveal_strlit("8");
        reveal_strlit("9");
        assert(c@ == seq![dec_digit(d as int)]);
    }
    if n < 10 {
        let mut s = String::new();
        s.append(c);
        proof {
            assert(s@ =~= dec_chars(n as int));
        }
        s
    } else {
        let mut s = usize_to_string(n / 10);
        s.append(c);
        proof {
            assert((n as int) / 10 == (n / 10) as int);
            assert(s@ =~= dec_chars(n as int));
        }
        s
    }
}

/// The extension the dump form uses.
pub open spec fn ext_chars(format: DumpFormat) -> Seq<char> {
    match format {
        DumpFormat::BIN => seq!['.', 'b', 'i', 'n'],
        DumpFormat::RAW => seq!['.', 'r', 'a', 'w'],
        DumpFormat::BMP => seq!['.', 'b', 'm', 'p'],
    }
}

/// The generated file name: the prefix, an underscore and each number in
/// order, and the dump form's extension.
pub open spec fn gen_name_spec(prefix: Seq<char>, numbers: Seq<int>, format: DumpFormat) -> Seq<
    char,
>
    decreases numbers.len(),
{
    if numbers.len() == 0 {
        prefix + ext_chars(format)
    } else {
        gen_name_spec(
            prefix + seq!['_'] + dec_chars(numbers[0]),
            numbers.drop_first(),
            format,
        )
    }
}

impl FaceN {
    /// Build the deterministic, numbered file name for one image asset.
    pub fn gen_name(prefix: &str, numbers: &[usize], format: &DumpFormat) -> (r: String)
        ensures
            r@ == gen_name_spec(prefix@, numbers@.map_values(|n: usize| n as int), *format),
    {
        let ext: &str = match format {
            DumpFormat::BIN => ".bin",
            DumpFormat::RAW => ".raw",
            DumpFormat::BMP => ".bmp",
        };
        proof {
            reveal_strlit(".bin");
            reveal_strlit(".raw");
            reveal_strlit(".bmp");
            assert(ext@ =~= ext_chars(*format));
        }
        let mut file_name: String = prefix.to_owned();
        let n = numbers.len();
        let mut i: usize = 0;
        proof {
            assert(numbers@.map_values(|x: usize| x as int).skip(0) =~= numbers@.map_values(
                |x: usize| x as int,
            ));
        }
        while i < n
            invariant
                i <= n,
                n == numbers@.len(),
                gen_name_spec(prefix@, numbers@.map_values(|x: usize| x as int), *format)
                    == gen_name_spec(
                    file_name@,
                    numbers@.map_values(|x: usize| x as int).skip(i as int),
                    *format,
                ),
            decreases n - i,
        {
            let underscore: &str = "_";
            proof {
                reveal_strlit("_");
                assert(underscore@ =~= seq!['_']);
            }
            let ghost fn_pre = file_name@;
            file_name.append(underscore);
            let num = usize_to_string(numbers[i]);
            file_name.append(num.as_str());
            proof {
                let m = numbers@.map_values(|x: usize| x as int);
                assert(m.skip(i as int)[0] == m[i as int]);
                assert(m.skip(i as int).drop_first() =~= m.skip(i + 1));
                assert(file_name@ =~= fn_pre + seq!['_'] + dec_chars(m[i as int]));
            }
            i = i + 1;
        }
        file_name.append(ext);
        proof {
            let m = numbers@.map_values(|x: usize| x as int);
            assert(m.skip(n as int) =~= Seq::<int>::empty());
        }
        file_name
    }

    /// Give every image asset its deterministic export file name, numbered
    /// per element kind, always overwriting what was set before: `preview`
    /// for the preview, `digit` with its set and glyph numbers, and each
    /// element kind's prefix with its own running counter.
    pub fn generate_file_names(&mut self, format: &DumpFormat)
        ensures
            final(self).api_ver == old(self).api_ver,
            final(self).unknown == old(self).unknown,
            final(self).rev == old(self).rev,
            final(self).tpls == old(self).tpls,
            final(self).type_str == old(self).type_str,
            asset_named(
                old(self).preview_img_data,
                final(self).preview_img_data,
                gen_name_spec("preview"@, Seq::<int>::empty(), *format),
            ),
            final(self).digits@.len() == old(self).digits@.len(),
            forall|n: int|
                0 <= n < old(self).digits@.len() ==> (#[trigger] final(self).digits@[n]).unknown
                    == old(self).digits@[n].unknown && final(self).digits@[n].img_data@.len()
                    == old(self).digits@[n].img_data@.len() && (forall|i: int|
                    0 <= i < old(self).digits@[n].img_data@.len() ==> asset_named(
                        old(self).digits@[n].img_data@[i],
                        #[trigger] final(self).digits@[n].img_data@[i],
                        gen_name_spec("digit"@, seq![n, i], *format),
                    )),
            final(self).elements@.len() == old(self).elements@.len(),
            forall|k: int|
                0 <= k < old(self).elements@.len() ==> elem_named(
                    old(self).elements@[k],
                    #[trigger] final(self).elements@[k],
                    count_images(old(self).elements@, k),
                    count_day_names(old(self).elements@, k),
                    count_battery_fills(old(self).elements@, k),
                    *format,
                ),
    {
        let ghost fmt = *format;
        let dn = self.digits.len();
        let mut n: usize = 0;
        while n < dn
            invariant
                n <= dn,
                dn == self.digits@.len(),
                dn == old(self).digits@.len(),
                fmt == *format,
                self.api_ver == old(self).api_ver,
                self.unknown == old(self).unknown,
                self.rev == old(self).rev,
                self.tpls == old(self).tpls,
                self.type_str == old(self).type_str,
                self.preview_img_data == old(self).preview_img_data,
                self.elements@ == old(self).elements@,
                forall|m: int|
                    0 <= m < n ==> (#[trigger] self.digits@[m]).unknown == old(
                        self,
                    ).digits@[m].unknown && self.digits@[m].img_data@.len() == old(
                        self,
                    ).digits@[m].img_data@.len() && (forall|i: int|
                        0 <= i < old(self).digits@[m].img_data@.len() ==> asset_named(
                            old(self).digits@[m].img_data@[i],
                            #[trigger] self.digits@[m].img_data@[i],
                            gen_name_spec("digit"@, seq![m, i], fmt),
                        )),
                forall|m: int| n <= m < dn ==> self.digits@[m] == old(self).digits@[m],
            decreases dn - n,
        {
            let ghost d_pre = self.digits@[n as int];
            let ds = &mut self.digits;
            let d = &mut ds[n];
            let gn = d.img_data.len();
            let ghost ids_pre = d.img_data@;
            let ghost unk_pre = d.unknown;
            let mut i: usize = 0;
            while i < gn
                invariant
                    i <= gn,
                    gn == d.img_data@.len(),
                    gn == ids_pre.len(),
                    d.unknown == unk_pre,
                    fmt == *format,
                    forall|j: int|
                        0 <= j < i ==> asset_named(
                            ids_pre[j],
                            #[trigger] d.img_data@[j],
                            gen_name_spec("digit"@, seq![n as int, j], fmt),
                        ),
                    forall|j: int| i <= j < gn ==> d.img_data@[j] == ids_pre[j],
                decreases gn - i,
            {
                let nums = [n, i];
                let nm = FaceN::gen_name("digit", &nums, format);
                proof {
                    assert(nums@ =~= seq![n as usize, i as usize]);
                    assert(nums@.map_values(|x: usize| x as int) =~= seq![n as int, i as int]);
                }
                let ids = &mut d.img_data;
                ids[i].set_file_name(nm.as_str(), true);
                i = i + 1;
            }
            n = n + 1;
        }
        let en = self.elements.len();
        let mut image_counter: usize = 0;
        let mut day_name_counter: usize = 0;
        let mut battery_fill_counter: usize = 0;
        let mut k: usize = 0;
        while k < en
            invariant
                k <= en,
                en == self.elements@.len(),
                en == old(self).elements@.len(),
                fmt == *format,
                self.api_ver == old(self).api_ver,
                self.unknown == old(self).unknown,
                self.rev == old(self).rev,
                self.tpls == old(self).tpls,
                self.type_str == old(self).type_str,
                self.preview_img_data == old(self).preview_img_data,
                self.digits@.len() == old(self).digits@.len(),
                forall|m: int|
                    0 <= m < old(self).digits@.len() ==> (#[trigger] self.digits@[m]).unknown
                        == old(self).digits@[m].unknown && self.digits@[m].img_data@.len() == old(
                        self,
                    ).digits@[m].img_data@.len() && (forall|j: int|
                        0 <= j < old(self).digits@[m].img_data@.len() ==> asset_named(
                            old(self).digits@[m].img_data@[j],
                            #[trigger] self.digits@[m].img_data@[j],
                            gen_name_spec("digit"@, seq![m, j], fmt),
                        )),
                image_counter == count_images(old(self).elements@, k as int),
                day_name_counter == count_day_names(old(self).elements@, k as int),
                battery_fill_counter == count_battery_fills(old(self).elements@, k as int),
                image_counter <= k && day_name_counter <= k && battery_fill_counter <= k,
                forall|j: int|
                    0 <= j < k ==> elem_named(
                        old(self).elements@[j],
                        #[trigger] self.elements@[j],
                        count_images(old(self).elements@, j),
                        count_day_names(old(self).elements@, j),
                        count_battery_fills(old(self).elements@, j),
                        fmt,
                    ),
                forall|j: int| k <= j < en ==> self.elements@[j] == old(self).elements@[j],
            decreases en - k,
        {
            let ghost e_pre = self.elements@[k as int];
            let ghost imgc = image_counter as int;
            let ghost dnc = day_name_counter as int;
            let ghost bfc = battery_fill_counter as int;
            let els = &mut self.elements;
            match &mut els[k] {
                Element::Image(e) => {
                    let nums = [image_counter];
                    let nm = FaceN::gen_name("image", &nums, format);
                    proof {
                        assert(nums@ =~= seq![image_counter as usize]);
                        assert(nums@.map_values(|x: usize| x as int) =~= seq![imgc]);
                    }
                    e.img_data.set_file_name(nm.as_str(), true);
                    image_counter = image_counter + 1;
                },
                Element::DayName(e) => {
                    let cnt = e.img_data.len();
                    let ghost ids_pre = e.img_data@;
                    let ghost n_type_pre = e.n_type;
                    let ghost x_pre = e.x;
                    let ghost y_pre = e.y;
                    let mut i: usize = 0;
                    while i < cnt
                        invariant
                            i <= cnt,
                            cnt == e.img_data@.len(),
                            cnt == ids_pre.len(),
                            fmt == *format,
                            day_name_counter as int == dnc,
                            e.n_type == n_type_pre,
                            e.x == x_pre,
                            e.y == y_pre,
                            forall|j: int|
                                0 <= j < i ==> asset_named(
                                    ids_pre[j],
                                    #[trigger] e.img_data@[j],
                                    gen_name_spec("day_name"@, seq![dnc, j], fmt),
                                ),
                            forall|j: int| i <= j < cnt ==> e.img_data@[j] == ids_pre[j],
                        decreases cnt - i,
                    {
                        let nums = [day_name_counter, i];
                        let nm = FaceN::gen_name("day_name", &nums, format);
                        proof {
                            assert(nums@ =~= seq![day_name_counter as usize, i as usize]);
                            assert(nums@.map_values(|x: usize| x as int) =~= seq![dnc, i as int]);
                        }
                        let ids = &mut e.img_data;
                        ids[i].set_file_name(nm.as_str(), true);
                        i = i + 1;
                    }
                    day_name_counter = day_name_counter + 1;
                },
                Element::BatteryFill(e) => {
                    let nums0 = [battery_fill_counter, 0];
                    let nums1 = [battery_fill_counter, 1];
                    let nums2 = [battery_fill_counter, 2];
                    let nm0 = FaceN::gen_name("battery_fill", &nums0, format);
                    let nm1 = FaceN::gen_name("battery_fill", &nums1, format);
                    let nm2 = FaceN::gen_name("battery_fill", &nums2, format);
                    proof {
                        assert(nums0@ =~= seq![battery_fill_counter as usize, 0usize]);
                        assert(nums0@.map_values(|x: usize| x as int) =~= seq![bfc, 0]);
                        assert(nums1@ =~= seq![battery_fill_counter as usize, 1usize]);
                        assert(nums1@.map_values(|x: usize| x as int) =~= seq![bfc, 1]);
                        assert(nums2@ =~= seq![battery_fill_counter as usize, 2usize]);
                        assert(nums2@.map_values(|x: usize| x as int) =~= seq![bfc, 2]);
                    }
                    e.img_data.set_file_name(nm0.as_str(), true);
                    e.image_data1.set_file_name(nm1.as_str(), true);
                    e.image_data2.set_file_name(nm2.as_str(), true);
                    battery_fill_counter = battery_fill_counter + 1;
                },
                Element::TimeHand(e) => {
                    let ht = e.h_type as usize;
                    let nums = [ht];
                    let nm = FaceN::gen_name("time_hand", &nums, format);
                    proof {
                        assert(nums@ =~= seq![ht as usize]);
                        assert(nums@.map_values(|x: usize| x as int) =~= seq![ht as int]);
                    }
                    e.img_data.set_file_name(nm.as_str(), true);
                },
                Element::BarDisplay(e) => {
                    let bt = e.b_type as usize;
                    let cnt = e.img_data.len();
                    let ghost ids_pre = e.img_data@;
                    let ghost b_type_pre = e.b_type;
                    let ghost count_pre = e.count;
                    let ghost x_pre = e.x;
                    let ghost y_pre = e.y;
                    let mut i: usize = 0;
                    while i < cnt
                        invariant
                            i <= cnt,
                            cnt == e.img_data@.len(),
                            cnt == ids_pre.len(),
                            fmt == *format,
                            bt == e.b_type as usize,
                            e.b_type == b_type_pre,
                            e.count == count_pre,
                            e.x == x_pre,
                            e.y == y_pre,
                            forall|j: int|
                                0 <= j < i ==> asset_named(
                                    ids_pre[j],
                                    #[trigger] e.img_data@[j],
                                    gen_name_spec("bar_display"@, seq![b_type_pre as int, j], fmt),
                                ),
                            forall|j: int| i <= j < cnt ==> e.img_data@[j] == ids_pre[j],
                        decreases cnt - i,
                    {
                        let nums = [bt, i];
                        let nm = FaceN::gen_name("bar_display", &nums, format);
                        proof {
                            assert(nums@ =~= seq![bt as usize, i as usize]);
                            assert(nums@.map_values(|x: usize| x as int) =~= seq![b_type_pre as int,
                                i as int]);
                        }
                        let ids = &mut e.img_data;
                        ids[i].set_file_name(nm.as_str(), true);
                        i = i + 1;
                    }
                },
                Element::Weather(e) => {
                    let cnt = e.img_data.len();
                    let ghost ids_pre = e.img_data@;
                    let ghost count_pre = e.count;
                    let ghost x_pre = e.x;
                    let ghost y_pre = e.y;
                    let mut i: usize = 0;
                    while i < cnt
                        invariant
                            i <= cnt,
                            cnt == e.img_data@.len(),
                            cnt == ids_pre.len(),
                            fmt == *format,
                            e.count == count_pre,
                            e.x == x_pre,
                            e.y == y_pre,
                            forall|j: int|
                                0 <= j < i ==> asset_named(
                                    ids_pre[j],
                                    #[trigger] e.img_data@[j],
                                    gen_name_spec("weather"@, seq![j], fmt),
                                ),
                            forall|j: int| i <= j < cnt ==> e.img_data@[j] == ids_pre[j],
                        decreases cnt - i,
                    {
                        let nums = [i];
                        let nm = FaceN::gen_name("weather", &nums, format);
                        proof {
                            assert(nums@ =~= seq![i as usize]);
                            assert(nums@.map_values(|x: usize| x as int) =~= seq![i as int]);
                        }
                        let ids = &mut e.img_data;
                        ids[i].set_file_name(nm.as_str(), true);
                        i = i + 1;
                    }
                },
                Element::Dash(e) => {
                    let nums: [usize; 0] = [];
                    let nm = FaceN::gen_name("dash", &nums, format);
                    proof {
                        assert(nums@ =~= Seq::<usize>::empty());
                        assert(nums@.map_values(|x: usize| x as int) =~= Seq::<int>::empty());
                    }
                    e.img_data.set_file_name(nm.as_str(), true);
                },
                _ => {
                },
            }
            proof {
                assert(elem_named(e_pre, self.elements@[k as int], imgc, dnc, bfc, fmt));
            }
            k = k + 1;
        }
        let nums: [usize; 0] = [];
        let name = FaceN::gen_name("preview", &nums, format);
        proof {
            assert(nums@ =~= Seq::<usize>::empty());
            assert(nums@.map_values(|x: usize| x as int) =~= Seq::<int>::empty());
        }
        self.preview_img_data.set_file_name(name.as_str(), true);
    }

    /// The files to write when exporting every image asset: one pair of
    /// file name and bytes per asset that has a file name and converts, in
    /// traversal order (preview, digit glyphs, then each element's assets);
    /// assets whose data cannot be exported are skipped, never fatal.
    pub fn write_imgs(&self, format: &DumpFormat) -> (r: Vec<(String, Vec<u8>)>)
        ensures
            pairs_match(r@, face_exports(*self, *format)),
    {
        let ghost fmt = *format;
        let ghost pv = asset_export(self.preview_img_data, fmt);
        let mut out: Vec<(String, Vec<u8>)> = Vec::new();
        proof {
            assert(pairs_match(out@, Seq::empty()));
        }
        let ghost out_pre0 = out@;
        self.preview_img_data.export_to(format, &mut out);
        proof {
            lemma_pairs_match_extend(out_pre0, out@, Seq::empty(), self.preview_img_data, fmt);
            assert(Seq::empty() + pv =~= pv);
        }
        let dn = self.digits.len();
        let mut n: usize = 0;
        proof {
            assert(self.digits@.take(0) =~= Seq::<Digits>::empty());
            assert(pv + digits_exports(self.digits@.take(0), fmt) =~= pv);
        }
        while n < dn
            invariant
                n <= dn,
                dn == self.digits@.len(),
                fmt == *format,
                pv == asset_export(self.preview_img_data, fmt),
                pairs_match(out@, pv + digits_exports(self.digits@.take(n as int), fmt)),
            decreases dn - n,
        {
            let gn = self.digits[n].img_data.len();
            let ghost pre_n = pv + digits_exports(self.digits@.take(n as int), fmt);
            let ghost gids = self.digits@[n as int].img_data@;
            let mut i: usize = 0;
            proof {
                assert(gids.take(0) =~= Seq::<ImgData>::empty());
                assert(pre_n + ids_exports(gids.take(0), fmt) =~= pre_n);
            }
            while i < gn
                invariant
                    i <= gn,
                    n < self.digits@.len(),
                    gn == gids.len(),
                    gids == self.digits@[n as int].img_data@,
                    fmt == *format,
                    pairs_match(out@, pre_n + ids_exports(gids.take(i as int), fmt)),
                decreases gn - i,
            {
                let ghost e_before = pre_n + ids_exports(gids.take(i as int), fmt);
                let ghost out_pre = out@;
                self.digits[n].img_data[i].export_to(format, &mut out);
                proof {
                    lemma_pairs_match_extend(
                        out_pre,
                        out@,
                        e_before,
                        gids[i as int],
                        fmt,
                    );
                    lemma_ids_exports_snoc(gids, i as int, fmt);
                    assert(e_before + asset_export(gids[i as int], fmt) =~= pre_n + ids_exports(
                        gids.take(i + 1),
                        fmt,
                    ));
                }
                i = i + 1;
            }
            proof {
                assert(gids.take(gn as int) =~= gids);
                lemma_digits_exports_snoc(self.digits@, n as int, fmt);
                assert(pre_n + ids_exports(gids, fmt) =~= pv + digits_exports(
                    self.digits@.take(n + 1),
                    fmt,
                ));
            }
            n = n + 1;
        }
        proof {
            assert(self.digits@.take(dn as int) =~= self.digits@);
        }
        let ghost pre_d = pv + digits_exports(self.digits@, fmt);
        let en = self.elements.len();
        let mut k: usize = 0;
        proof {
            assert(self.elements@.take(0) =~= Seq::<Element>::empty());
            assert(pre_d + elems_exports(self.elements@.take(0), fmt) =~= pre_d);
        }
        while k < en
            invariant
                k <= en,
                en == self.elements@.len(),
                fmt == *format,
                pre_d == asset_export(self.preview_img_data, fmt) + digits_exports(
                    self.digits@,
                    fmt,
                ),
                pairs_match(out@, pre_d + elems_exports(self.elements@.take(k as int), fmt)),
            decreases en - k,
        {
            let ghost e_pre = pre_d + elems_exports(self.elements@.take(k as int), fmt);
            let ghost cur = self.elements@[k as int];
            match &self.elements[k] {
                Element::Image(e) => {
                    let ghost out_pre = out@;
                    e.img_data.export_to(format, &mut out);
                    proof {
                        lemma_pairs_match_extend(
                            out_pre,
                            out@,
                            e_pre,
                            e.img_data,
                            fmt,
                        );
                        assert(pairs_match(out@, e_pre + elem_exports(cur, fmt)));
                    }
                },
                Element::DayName(e) => {
                    let cnt = e.img_data.len();
                    let ghost gids = e.img_data@;
                    let mut i: usize = 0;
                    proof {
                        assert(gids.take(0) =~= Seq::<ImgData>::empty());
                        assert(e_pre + ids_exports(gids.take(0), fmt) =~= e_pre);
                    }
                    while i < cnt
                        invariant
                            i <= cnt,
                            cnt == gids.len(),
                            gids == e.img_data@,
                            fmt == *format,
                            pairs_match(out@, e_pre + ids_exports(gids.take(i as int), fmt)),
                        decreases cnt - i,
                    {
                        let ghost e_before = e_pre + ids_exports(gids.take(i as int), fmt);
                        let ghost out_pre = out@;
                        e.img_data[i].export_to(format, &mut out);
                        proof {
                            lemma_pairs_match_extend(
                                out_pre,
                                out@,
                                e_before,
                                gids[i as int],
                                fmt,
                            );
                            lemma_ids_exports_snoc(gids, i as int, fmt);
                            assert(e_before + asset_export(gids[i as int], fmt) =~= e_pre
                                + ids_exports(gids.take(i + 1), fmt));
                        }
                        i = i + 1;
                    }
                    proof {
                        assert(gids.take(cnt as int) =~= gids);
                        assert(pairs_match(out@, e_pre + elem_exports(cur, fmt)));
                    }
                },
                Element::BatteryFill(e) => {
                    let ghost out_pre = out@;
                    e.img_data.export_to(format, &mut out);
                    proof {
                        lemma_pairs_match_extend(
                            out_pre,
                            out@,
                            e_pre,
                            e.img_data,
                            fmt,
                        );
                    }
                    let ghost e1 = e_pre + asset_export(e.img_data, fmt);
                    let ghost out_pre = out@;
                    e.image_data1.export_to(format, &mut out);
                    proof {
                        lemma_pairs_match_extend(
                            out_pre,
                            out@,
                            e1,
                            e.image_data1,
                            fmt,
                        );
                    }
                    let ghost e2 = e1 + asset_export(e.image_data1, fmt);
                    let ghost out_pre = out@;
                    e.image_data2.export_to(format, &mut out);
                    proof {
                        lemma_pairs_match_extend(
                            out_pre,
                            out@,
                            e2,
                            e.image_data2,
                            fmt,
                        );
                        assert(e2 + asset_export(e.image_data2, fmt) =~= e_pre + elem_exports(
                            cur,
                            fmt,
                        ));
                        assert(pairs_match(out@, e_pre + elem_exports(cur, fmt)));
                    }
                },
                Element::TimeHand(e) => {
                    let ghost out_pre = out@;
                    e.img_data.export_to(format, &mut out);
                    proof {
                        lemma_pairs_match_extend(
                            out_pre,
                            out@,
                            e_pre,
                            e.img_data,
                            fmt,
                        );
                        assert(pairs_match(out@, e_pre + elem_exports(cur, fmt)));
                    }
                },
                Element::BarDisplay(e) => {
                    let cnt = e.img_data.len();
                    let ghost gids = e.img_data@;
                    let mut i: usize = 0;
                    proof {
                        assert(gids.take(0) =~= Seq::<ImgData>::empty());
                        assert(e_pre + ids_exports(gids.take(0), fmt) =~= e_pre);
                    }
                    while i < cnt
                        invariant
                            i <= cnt,
                            cnt == gids.len(),
                            gids == e.img_data@,
                            fmt == *format,
                            pairs_match(out@, e_pre + ids_exports(gids.take(i as int), fmt)),
                        decreases cnt - i,
                    {
                        let ghost e_before = e_pre + ids_exports(gids.take(i as int), fmt);
                        let ghost out_pre = out@;
                        e.img_data[i].export_to(format, &mut out);
                        proof {
                            lemma_pairs_match_extend(
                                out_pre,
                                out@,
                                e_before,
                                gids[i as int],
                                fmt,
                            );
                            lemma_ids_exports_snoc(gids, i as int, fmt);
                            assert(e_before + asset_export(gids[i as int], fmt) =~= e_pre
                                + ids_exports(gids.take(i + 1), fmt));
                        }
                        i = i + 1;
                    }
                    proof {
                        assert(gids.take(cnt as int) =~= gids);
                        assert(pairs_match(out@, e_pre + elem_exports(cur, fmt)));
                    }
                },
                Element::Weather(e) => {
                    let cnt = e.img_data.len();
                    let ghost gids = e.img_data@;
                    let mut i: usize = 0;
                    proof {
                        assert(gids.take(0) =~= Seq::<ImgData>::empty());
                        assert(e_pre + ids_exports(gids.take(0), fmt) =~= e_pre);
                    }
                    while i < cnt
                        invariant
                            i <= cnt,
                            cnt == gids.len(),
                            gids == e.img_data@,
                            fmt == *format,
                            pairs_match(out@, e_pre + ids_exports(gids.take(i as int), fmt)),
                        decreases cnt - i,
                    {
                        let ghost e_before = e_pre + ids_exports(gids.take(i as int), fmt);
                        let ghost out_pre = out@;
                        e.img_data[i].export_to(format, &mut out);
                        proof {
                            lemma_pairs_match_extend(
                                out_pre,
                                out@,
                                e_before,
                                gids[i as int],
                                fmt,
                            );
                            lemma_ids_exports_snoc(gids, i as int, fmt);
                            assert(e_before + asset_export(gids[i as int], fmt) =~= e_pre
                                + ids_exports(gids.take(i + 1), fmt));
                        }
                        i = i + 1;
                    }
                    proof {
                        assert(gids.take(cnt as int) =~= gids);
                        assert(pairs_match(out@, e_pre + elem_exports(cur, fmt)));
                    }
                },
                Element::Dash(e) => {
                    let ghost out_pre = out@;
                    e.img_data.export_to(format, &mut out);
                    proof {
                        lemma_pairs_match_extend(
                            out_pre,
                            out@,
                            e_pre,
                            e.img_data,
                            fmt,
                        );
                        assert(pairs_match(out@, e_pre + elem_exports(cur, fmt)));
                    }
                },
                _ => {
                    proof {
                        assert(e_pre + elem_exports(cur, fmt) =~= e_pre);
                    }
                },
            }
            proof {
                lemma_elems_exports_snoc(self.elements@, k as int, fmt);
                assert(e_pre + elem_exports(cur, fmt) =~= pre_d + elems_exports(
                    self.elements@.take(k + 1),
                    fmt,
                ));
            }
            k = k + 1;
        }
        proof {
            assert(self.elements@.take(en as int) =~= self.elements@);
        }
        out
    }

    /// Re-import every image asset whose file was read: each asset with a
    /// sane file name takes its bytes from the first matching entry of
    /// `files`, in the form its extension names.  Assets without a file,
    /// and files that fail to convert, are skipped, never fatal; every
    /// other field of the face is unchanged.
    pub fn read_imgs(&mut self, files: &Vec<(String, Vec<u8>)>)
        ensures
            final(self).api_ver == old(self).api_ver,
            final(self).unknown == old(self).unknown,
            final(self).rev == old(self).rev,
            final(self).tpls == old(self).tpls,
            final(self).type_str == old(self).type_str,
            import_from_rel(old(self).preview_img_data, final(self).preview_img_data, files@),
            final(self).digits@.len() == old(self).digits@.len(),
            forall|j: int|
                0 <= j < old(self).digits@.len() ==> digits_refreshed(
                    old(self).digits@[j],
                    #[trigger] final(self).digits@[j],
                    files@,
                ),
            final(self).elements@.len() == old(self).elements@.len(),
            forall|j: int|
                0 <= j < old(self).elements@.len() ==> elem_refreshed(
                    old(self).elements@[j],
                    #[trigger] final(self).elements@[j],
                    files@,
                ),
    {
        self.preview_img_data.import_from(files);
        let dn = self.digits.len();
        let mut n: usize = 0;
        while n < dn
            invariant
                n <= dn,
                dn == self.digits@.len(),
                dn == old(self).digits@.len(),
                self.api_ver == old(self).api_ver,
                self.unknown == old(self).unknown,
                self.rev == old(self).rev,
                self.tpls == old(self).tpls,
                self.type_str == old(self).type_str,
                import_from_rel(old(self).preview_img_data, self.preview_img_data, files@),
                self.elements@ == old(self).elements@,
                forall|j: int|
                    0 <= j < n ==> digits_refreshed(
                        old(self).digits@[j],
                        #[trigger] self.digits@[j],
                        files@,
                    ),
                forall|j: int| n <= j < dn ==> self.digits@[j] == old(self).digits@[j],
            decreases dn - n,
        {
            let ghost d_pre = self.digits@[n as int];
            let ds = &mut self.digits;
            let d = &mut ds[n];
            let gn = d.img_data.len();
            let ghost ids_pre = d.img_data@;
            let ghost unk_pre = d.unknown;
            let mut i: usize = 0;
            while i < gn
                invariant
                    i <= gn,
                    gn == d.img_data@.len(),
                    gn == ids_pre.len(),
                    d.unknown == unk_pre,
                    forall|j: int|
                        0 <= j < i ==> import_from_rel(
                            ids_pre[j],
                            #[trigger] d.img_data@[j],
                            files@,
                        ),
                    forall|j: int| i <= j < gn ==> d.img_data@[j] == ids_pre[j],
                decreases gn - i,
            {
                let ids = &mut d.img_data;
                ids[i].import_from(files);
                i = i + 1;
            }
            n = n + 1;
        }
        let en = self.elements.len();
        let mut k: usize = 0;
        while k < en
            invariant
                k <= en,
                en == self.elements@.len(),
                en == old(self).elements@.len(),
                self.api_ver == old(self).api_ver,
                self.unknown == old(self).unknown,
                self.rev == old(self).rev,
                self.tpls == old(self).tpls,
                self.type_str == old(self).type_str,
                import_from_rel(old(self).preview_img_data, self.preview_img_data, files@),
                self.digits@.len() == old(self).digits@.len(),
                forall|j: int|
                    0 <= j < old(self).digits@.len() ==> digits_refreshed(
                        old(self).digits@[j],
                        #[trigger] self.digits@[j],
                        files@,
                    ),
                forall|j: int|
                    0 <= j < k ==> elem_refreshed(
                        old(self).elements@[j],
                        #[trigger] self.elements@[j],
                        files@,
                    ),
                forall|j: int| k <= j < en ==> self.elements@[j] == old(self).elements@[j],
            decreases en - k,
        {
            let ghost e_pre = self.elements@[k as int];
            let els = &mut self.elements;
            match &mut els[k] {
                Element::Image(e) => {
                    e.img_data.import_from(files);
                },
                Element::DayName(e) => {
                    let cnt = e.img_data.len();
                    let ghost ids_pre = e.img_data@;
                    let ghost n_type_pre = e.n_type;
                    let ghost x_pre = e.x;
                    let ghost y_pre = e.y;
                    let mut i: usize = 0;
                    while i < cnt
                        invariant
                            i <= cnt,
                            cnt == e.img_data@.len(),
                            cnt == ids_pre.len(),
                            e.n_type == n_type_pre,
                            e.x == x_pre,
                            e.y == y_pre,
                            forall|j: int|
                                0 <= j < i ==> import_from_rel(
                                    ids_pre[j],
                                    #[trigger] e.img_data@[j],
                                    files@,
                                ),
                            forall|j: int| i <= j < cnt ==> e.img_data@[j] == ids_pre[j],
                        decreases cnt - i,
                    {
                        let ids = &mut e.img_data;
                        ids[i].import_from(files);
                        i = i + 1;
                    }
                },
                Element::BatteryFill(e) => {
                    e.img_data.import_from(files);
                    e.image_data1.import_from(files);
                    e.image_data2.import_from(files);
                },
                Element::TimeHand(e) => {
                    e.img_data.import_from(files);
                },
                Element::BarDisplay(e) => {
                    let cnt = e.img_data.len();
                    let ghost ids_pre = e.img_data@;
                    let ghost b_type_pre = e.b_type;
                    let ghost count_pre = e.count;
                    let ghost x_pre = e.x;
                    let ghost y_pre = e.y;
                    let mut i: usize = 0;
                    while i < cnt
                        invariant
                            i <= cnt,
                            cnt == e.img_data@.len(),
                            cnt == ids_pre.len(),
                            e.b_type == b_type_pre,
                            e.count == count_pre,
                            e.x == x_pre,
                            e.y == y_pre,
                            forall|j: int|
                                0 <= j < i ==> import_from_rel(
                                    ids_pre[j],
                                    #[trigger] e.img_data@[j],
                                    files@,
                                ),
                            forall|j: int| i <= j < cnt ==> e.img_data@[j] == ids_pre[j],
                        decreases cnt - i,
                    {
                        let ids = &mut e.img_data;
                        ids[i].import_from(files);
                        i = i + 1;
                    }
                },
                Element::Weather(e) => {
                    let cnt = e.img_data.len();
                    let ghost ids_pre = e.img_data@;
                    let ghost count_pre = e.count;
                    let ghost x_pre = e.x;
                    let ghost y_pre = e.y;
                    let mut i: usize = 0;
                    while i < cnt
                        invariant
                            i <= cnt,
                            cnt == e.img_data@.len(),
                            cnt == ids_pre.len(),
                            e.count == count_pre,
                            e.x == x_pre,
                            e.y == y_pre,
                            forall|j: int|
                                0 <= j < i ==> import_from_rel(
                                    ids_pre[j],
                                    #[trigger] e.img_data@[j],
                                    files@,
                                ),
                            forall|j: int| i <= j < cnt ==> e.img_data@[j] == ids_pre[j],
                        decreases cnt - i,
                    {
                        let ids = &mut e.img_data;
                        ids[i].import_from(files);
                        i = i + 1;
                    }
                },
                Element::Dash(e) => {
                    e.img_data.import_from(files);
                },
                _ => {
                },
            }
            proof {
                assert(elem_refreshed(e_pre, self.elements@[k as int], files@));
            }
            k = k + 1;
        }
    }
}

/// How re-importing leaves one digit font: the pass-through bytes and the
/// glyph count are kept, and each glyph is re-imported from `files` as
/// `import_from_rel` says.
pub open spec fn digits_refreshed(pre: Digits, post: Digits, files: Seq<(String, Vec<u8>)>)
    -> bool {
    post.unknown == pre.unknown && post.img_data@.len() == pre.img_data@.len() && (forall|i: int|
        0 <= i < pre.img_data@.len() ==> import_from_rel(
            pre.img_data@[i],
            #[trigger] post.img_data@[i],
            files,
        ))
}

/// How re-importing leaves one element: the kind and every positioning and
/// selector field are kept, and each image asset is re-imported from
/// `files` as `import_from_rel` says; kinds without assets are unchanged.
pub open spec fn elem_refreshed(pre: Element, post: Element, files: Seq<(String, Vec<u8>)>)
    -> bool {
    match pre {
        Element::Image(p) => post matches Element::Image(q) && q.x == p.x && q.y == p.y
            && import_from_rel(p.img_data, q.img_data, files),
        Element::DayName(p) => post matches Element::DayName(q) && q.n_type == p.n_type && q.x
            == p.x && q.y == p.y && q.img_data@.len() == p.img_data@.len() && (forall|i: int|
            0 <= i < p.img_data@.len() ==> import_from_rel(
                p.img_data@[i],
                #[trigger] q.img_data@[i],
                files,
            )),
        Element::BatteryFill(p) => post matches Element::BatteryFill(q) && q.x == p.x && q.y
            == p.y && q.x1 == p.x1 && q.y1 == p.y1 && q.x2 == p.x2 && q.y2 == p.y2 && q.unknown0
            == p.unknown0 && q.unknown1 == p.unknown1 && import_from_rel(
            p.img_data,
            q.img_data,
            files,
        ) && import_from_rel(p.image_data1, q.image_data1, files) && import_from_rel(
            p.image_data2,
            q.image_data2,
            files,
        ),
        Element::TimeHand(p) => post matches Element::TimeHand(q) && q.h_type == p.h_type
            && q.unknown_x == p.unknown_x && q.unknown_y == p.unknown_y && q.x == p.x && q.y
            == p.y && import_from_rel(p.img_data, q.img_data, files),
        Element::BarDisplay(p) => post matches Element::BarDisplay(q) && q.b_type == p.b_type
            && q.count == p.count && q.x == p.x && q.y == p.y && q.img_data@.len()
            == p.img_data@.len() && (forall|i: int|
            0 <= i < p.img_data@.len() ==> import_from_rel(
                p.img_data@[i],
                #[trigger] q.img_data@[i],
                files,
            )),
        Element::Weather(p) => post matches Element::Weather(q) && q.count == p.count && q.x
            == p.x && q.y == p.y && q.img_data@.len() == p.img_data@.len() && (forall|i: int|
            0 <= i < p.img_data@.len() ==> import_from_rel(
                p.img_data@[i],
                #[trigger] q.img_data@[i],
                files,
            )),
        Element::Dash(p) => post matches Element::Dash(q) && import_from_rel(
            p.img_data,
            q.img_data,
            files,
        ),
        _ => post == pre,
    }
}

/// Name/bytes pairs at the specification level: each executable pair's
/// views equal the stated pair.
pub open spec fn pairs_match(v: Seq<(String, Vec<u8>)>, e: Seq<(Seq<char>, Seq<u8>)>) -> bool {
    v.len() == e.len() && (forall|i: int|
        0 <= i < v.len() ==> (#[trigger] v[i].0)@ == e[i].0 && v[i].1@ == e[i].1)
}

/// What exporting one asset contributes: its (name, bytes) pair when it
/// has a file name and converts, else nothing.
pub open spec fn asset_export(id: ImgData, fmt: DumpFormat) -> Seq<(Seq<char>, Seq<u8>)> {
    if id.file_name is Some && crate::img_data::export_ok_spec(id, fmt) {
        seq![(id.file_name.unwrap()@, crate::img_data::export_bytes_spec(id, fmt))]
    } else {
        Seq::empty()
    }
}

/// The exports of a run of assets, in order.
pub open spec fn ids_exports(ids: Seq<ImgData>, fmt: DumpFormat) -> Seq<(Seq<char>, Seq<u8>)>
    decreases ids.len(),
{
    if ids.len() == 0 {
        Seq::empty()
    } else {
        asset_export(ids[0], fmt) + ids_exports(ids.drop_first(), fmt)
    }
}

/// The exports of the digit fonts' glyphs, in order.
pub open spec fn digits_exports(ds: Seq<Digits>, fmt: DumpFormat) -> Seq<(Seq<char>, Seq<u8>)>
    decreases ds.len(),
{
    if ds.len() == 0 {
        Seq::empty()
    } else {
        ids_exports(ds[0].img_data@, fmt) + digits_exports(ds.drop_first(), fmt)
    }
}

/// The exports of one element's assets, in order.
pub open spec fn elem_exports(e: Element, fmt: DumpFormat) -> Seq<(Seq<char>, Seq<u8>)> {
    match e {
        Element::Image(v) => asset_export(v.img_data, fmt),
        Element::DayName(v) => ids_exports(v.img_data@, fmt),
        Element::BatteryFill(v) => asset_export(v.img_data, fmt) + asset_export(
            v.image_data1,
            fmt,
        ) + asset_export(v.image_data2, fmt),
        Element::TimeHand(v) => asset_export(v.img_data, fmt),
        Element::BarDisplay(v) => ids_exports(v.img_data@, fmt),
        Element::Weather(v) => ids_exports(v.img_data@, fmt),
        Element::Dash(v) => asset_export(v.img_data, fmt),
        _ => Seq::empty(),
    }
}

/// The exports of a run of elements, in order.
pub open spec fn elems_exports(elems: Seq<Element>, fmt: DumpFormat) -> Seq<(Seq<char>, Seq<u8>)>
    decreases elems.len(),
{
    if elems.len() == 0 {
        Seq::empty()
    } else {
        elem_exports(elems[0], fmt) + elems_exports(elems.drop_first(), fmt)
    }
}

/// Every export of the face, in traversal order: the preview, the digit
/// glyphs, then each element's assets.
pub open spec fn face_exports(f: FaceN, fmt: DumpFormat) -> Seq<(Seq<char>, Seq<u8>)> {
    asset_export(f.preview_img_data, fmt) + digits_exports(f.digits@, fmt) + elems_exports(
        f.elements@,
        fmt,
    )
}

proof fn lemma_ids_exports_snoc(ids: Seq<ImgData>, i: int, fmt: DumpFormat)
    requires
        0 <= i < ids.len(),
    ensures
        ids_exports(ids.take(i + 1), fmt) == ids_exports(ids.take(i), fmt) + asset_export(
            ids[i],
            fmt,
        ),
    decreases i,
{
    let t1 = ids.take(i + 1);
    let t0 = ids.take(i);
    if i == 0 {
        assert(t1.drop_first() =~= Seq::<ImgData>::empty());
        assert(t1[0] == ids[0]);
        assert(ids_exports(Seq::<ImgData>::empty(), fmt) == Seq::<(Seq<char>, Seq<u8>)>::empty());
        assert(t0 =~= Seq::<ImgData>::empty());
        assert(ids_exports(t1, fmt) =~= asset_export(ids[0], fmt));
        assert(ids_exports(t0, fmt) + asset_export(ids[0], fmt) =~= asset_export(ids[0], fmt));
    } else {
        lemma_ids_exports_snoc(ids.drop_first(), i - 1, fmt);
        assert(t1.drop_first() =~= ids.drop_first().take(i));
        assert(t0.drop_first() =~= ids.drop_first().take(i - 1));
        assert(ids.drop_first()[i - 1] == ids[i]);
        assert(t1[0] == ids[0] && t0[0] == ids[0]);
        assert(ids_exports(t1, fmt) =~= asset_export(ids[0], fmt) + ids_exports(
            ids.drop_first().take(i),
            fmt,
        ));
        assert(ids_exports(t0, fmt) =~= asset_export(ids[0], fmt) + ids_exports(
            ids.drop_first().take(i - 1),
            fmt,
        ));
        assert(asset_export(ids[0], fmt) + (ids_exports(ids.drop_first().take(i - 1), fmt)
            + asset_export(ids[i], fmt)) =~= (asset_export(ids[0], fmt) + ids_exports(
            ids.drop_first().take(i - 1),
            fmt,
        )) + asset_export(ids[i], fmt));
    }
}

proof fn lemma_digits_exports_snoc(ds: Seq<Digits>, k: int, fmt: DumpFormat)
    requires
        0 <= k < ds.len(),
    ensures
        digits_exports(ds.take(k + 1), fmt) == digits_exports(ds.take(k), fmt) + ids_exports(
            ds[k].img_data@,
            fmt,
        ),
    decreases k,
{
    let t1 = ds.take(k + 1);
    let t0 = ds.take(k);
    if k == 0 {
        assert(t1.drop_first() =~= Seq::<Digits>::empty());
        assert(t1[0] == ds[0]);
        assert(digits_exports(Seq::<Digits>::empty(), fmt) == Seq::<(
            Seq<char>,
            Seq<u8>,
        )>::empty());
        assert(t0 =~= Seq::<Digits>::empty());
        assert(digits_exports(t1, fmt) =~= ids_exports(ds[0].img_data@, fmt));
        assert(digits_exports(t0, fmt) + ids_exports(ds[0].img_data@, fmt) =~= ids_exports(
            ds[0].img_data@,
            fmt,
        ));
    } else {
        lemma_digits_exports_snoc(ds.drop_first(), k - 1, fmt);
        assert(t1.drop_first() =~= ds.drop_first().take(k));
        assert(t0.drop_first() =~= ds.drop_first().take(k - 1));
        assert(ds.drop_first()[k - 1] == ds[k]);
        assert(t1[0] == ds[0] && t0[0] == ds[0]);
        assert(digits_exports(t1, fmt) =~= ids_exports(ds[0].img_data@, fmt) + digits_exports(
            ds.drop_first().take(k),
            fmt,
        ));
        assert(digits_exports(t0, fmt) =~= ids_exports(ds[0].img_data@, fmt) + digits_exports(
            ds.drop_first().take(k - 1),
            fmt,
        ));
        assert(ids_exports(ds[0].img_data@, fmt) + (digits_exports(
            ds.drop_first().take(k - 1),
            fmt,
        ) + ids_exports(ds[k].img_data@, fmt)) =~= (ids_exports(ds[0].img_data@, fmt)
            + digits_exports(ds.drop_first().take(k - 1), fmt)) + ids_exports(
            ds[k].img_data@,
            fmt,
        ));
    }
}

proof fn lemma_elems_exports_snoc(elems: Seq<Element>, k: int, fmt: DumpFormat)
    requires
        0 <= k < elems.len(),
    ensures
        elems_exports(elems.take(k + 1), fmt) == elems_exports(elems.take(k), fmt) + elem_exports(
            elems[k],
            fmt,
        ),
    decreases k,
{
    let t1 = elems.take(k + 1);
    let t0 = elems.take(k);
    if k == 0 {
        assert(t1.drop_first() =~= Seq::<Element>::empty());
        assert(t1[0] == elems[0]);
        assert(elems_exports(Seq::<Element>::empty(), fmt) == Seq::<(
            Seq<char>,
            Seq<u8>,
        )>::empty());
        assert(t0 =~= Seq::<Element>::empty());
        assert(elems_exports(t1, fmt) =~= elem_exports(elems[0], fmt));
        assert(elems_exports(t0, fmt) + elem_exports(elems[0], fmt) =~= elem_exports(
            elems[0],
            fmt,
        ));
    } else {
        lemma_elems_exports_snoc(elems.drop_first(), k - 1, fmt);
        assert(t1.drop_first() =~= elems.drop_first().take(k));
        assert(t0.drop_first() =~= elems.drop_first().take(k - 1));
        assert(elems.drop_first()[k - 1] == elems[k]);
        assert(t1[0] == elems[0] && t0[0] == elems[0]);
        assert(elems_exports(t1, fmt) =~= elem_exports(elems[0], fmt) + elems_exports(
            elems.drop_first().take(k),
            fmt,
        ));
        assert(elems_exports(t0, fmt) =~= elem_exports(elems[0], fmt) + elems_exports(
            elems.drop_first().take(k - 1),
            fmt,
        ));
        assert(elem_exports(elems[0], fmt) + (elems_exports(elems.drop_first().take(k - 1), fmt)
            + elem_exports(elems[k], fmt)) =~= (elem_exports(elems[0], fmt) + elems_exports(
            elems.drop_first().take(k - 1),
            fmt,
        )) + elem_exports(elems[k], fmt));
    }
}

/// Appending one asset's export keeps the result matched against the
/// expected list.
proof fn lemma_pairs_match_extend(pre: Seq<(String, Vec<u8>)>, post: Seq<(String, Vec<u8>)>,
    e: Seq<(Seq<char>, Seq<u8>)>, id: ImgData, fmt: DumpFormat)
    requires
        pairs_match(pre, e),
        id.file_name is None || !crate::img_data::export_ok_spec(id, fmt) ==> post == pre,
        id.file_name matches Some(nm) ==> (crate::img_data::export_ok_spec(id, fmt) ==> post.len()
            == pre.len() + 1 && post.take(pre.len() as int) == pre && post.last().0@ == nm@
            && post.last().1@ == crate::img_data::export_bytes_spec(id, fmt)),
    ensures
        pairs_match(post, e + asset_export(id, fmt)),
{
    if id.file_name is Some && crate::img_data::export_ok_spec(id, fmt) {
        assert forall|i: int| 0 <= i < post.len() implies (#[trigger] post[i].0)@ == (e
            + asset_export(id, fmt))[i].0 && post[i].1@ == (e + asset_export(id, fmt))[i].1 by {
            if i < pre.len() {
                assert(post.take(pre.len() as int)[i] == post[i]);
            } else {
                assert(post[i] == post.last());
            }
        }
    } else {
        assert(e + asset_export(id, fmt) =~= e);
    }
}

/// An asset renamed: pixel content and dimensions kept, the file name set
/// to exactly `name`.
pub open spec fn asset_named(pre: ImgData, post: ImgData, name: Seq<char>) -> bool {
    post.header == pre.header && post.data == pre.data && post.w == pre.w && post.h == pre.h && (
    post.file_name matches Some(f) && f@ == name)
}

/// How many of the first `k` elements are still images.
pub open spec fn count_images(elems: Seq<Element>, k: int) -> int
    decreases k,
{
    if k <= 0 {
        0
    } else {
        count_images(elems, k - 1) + if elems[k - 1] is Image {
            1int
        } else {
            0int
        }
    }
}

/// How many of the first `k` elements are day-name displays.
pub open spec fn count_day_names(elems: Seq<Element>, k: int) -> int
    decreases k,
{
    if k <= 0 {
        0
    } else {
        count_day_names(elems, k - 1) + if elems[k - 1] is DayName {
            1int
        } else {
            0int
        }
    }
}

/// How many of the first `k` elements are battery gauges.
pub open spec fn count_battery_fills(elems: Seq<Element>, k: int) -> int
    decreases k,
{
    if k <= 0 {
        0
    } else {
        count_battery_fills(elems, k - 1) + if elems[k - 1] is BatteryFill {
            1int
        } else {
            0int
        }
    }
}

/// How naming leaves one element: every field and asset byte kept, and each
/// asset's file name set to its kind's deterministic, numbered name.
pub open spec fn elem_named(pre: Element, post: Element, imgc: int, dnc: int, bfc: int,
    fmt: DumpFormat) -> bool {
    match pre {
        Element::Image(p) => post matches Element::Image(q) && q.x == p.x && q.y == p.y
            && asset_named(p.img_data, q.img_data, gen_name_spec("image"@, seq![imgc], fmt)),
        Element::DayName(p) => post matches Element::DayName(q) && q.n_type == p.n_type && q.x
            == p.x && q.y == p.y && q.img_data@.len() == p.img_data@.len() && (forall|i: int|
            0 <= i < p.img_data@.len() ==> asset_named(
                p.img_data@[i],
                #[trigger] q.img_data@[i],
                gen_name_spec("day_name"@, seq![dnc, i], fmt),
            )),
        Element::BatteryFill(p) => post matches Element::BatteryFill(q) && q.x == p.x && q.y
            == p.y && q.x1 == p.x1 && q.y1 == p.y1 && q.x2 == p.x2 && q.y2 == p.y2 && q.unknown0
            == p.unknown0 && q.unknown1 == p.unknown1 && asset_named(
            p.img_data,
            q.img_data,
            gen_name_spec("battery_fill"@, seq![bfc, 0], fmt),
        ) && asset_named(
            p.image_data1,
            q.image_data1,
            gen_name_spec("battery_fill"@, seq![bfc, 1], fmt),
        ) && asset_named(
            p.image_data2,
            q.image_data2,
            gen_name_spec("battery_fill"@, seq![bfc, 2], fmt),
        ),
        Element::TimeHand(p) => post matches Element::TimeHand(q) && q.h_type == p.h_type
            && q.unknown_x == p.unknown_x && q.unknown_y == p.unknown_y && q.x == p.x && q.y
            == p.y && asset_named(
            p.img_data,
            q.img_data,
            gen_name_spec("time_hand"@, seq![p.h_type as int], fmt),
        ),
        Element::BarDisplay(p) => post matches Element::BarDisplay(q) && q.b_type == p.b_type
            && q.count == p.count && q.x == p.x && q.y == p.y && q.img_data@.len()
            == p.img_data@.len() && (forall|i: int|
            0 <= i < p.img_data@.len() ==> asset_named(
                p.img_data@[i],
                #[trigger] q.img_data@[i],
                gen_name_spec("bar_display"@, seq![p.b_type as int, i], fmt),
            )),
        Element::Weather(p) => post matches Element::Weather(q) && q.count == p.count && q.x
            == p.x && q.y == p.y && q.img_data@.len() == p.img_data@.len() && (forall|i: int|
            0 <= i < p.img_data@.len() ==> asset_named(
                p.img_data@[i],
                #[trigger] q.img_data@[i],
                gen_name_spec("weather"@, seq![i], fmt),
            )),
        Element::Dash(p) => post matches Element::Dash(q) && asset_named(
            p.img_data,
            q.img_data,
            gen_name_spec("dash"@, Seq::<int>::empty(), fmt),
        ),
        _ => post == pre,
    }
}

} // verus!
