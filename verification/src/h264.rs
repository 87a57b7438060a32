//! What an H.264 byte stream holds: its NAL units, told apart by their start codes.

use vstd::prelude::*;

use crate::text;

verus! {

/// The length of the start code at a place in the stream: three or four bytes, or zero
/// where there is none. Behind a start code at least one byte has to be there for it to
/// count, save for one of four bytes at the very end.
pub open spec fn start_code(data: Seq<u8>, i: int) -> int {
    if i + 3 < data.len() && data[i] == 0 && data[i + 1] == 0 {
        if data[i + 2] == 1 {
            3
        } else if data[i + 2] == 0 && data[i + 3] == 1 {
            4
        } else {
            0
        }
    } else {
        0
    }
}

/// The types of the NAL units from a place in the stream on: the low five bits of the byte
/// behind each start code.
pub open spec fn nal_types(data: Seq<u8>, i: int) -> Seq<u8>
    decreases data.len() - i,
{
    if i < 0 || i >= data.len() {
        Seq::empty()
    } else if start_code(data, i) == 0 {
        nal_types(data, i + 1)
    } else {
        let at = i + start_code(data, i);
        if at < data.len() {
            seq![(data[at] % 32) as u8] + nal_types(data, at + 1)
        } else {
            Seq::empty()
        }
    }
}

/// The name of a type of NAL unit.
pub open spec fn nal_name(ty: u8) -> Seq<char> {
    if ty == 1 {
        "P-slice"@
    } else if ty == 5 {
        "IDR"@
    } else if ty == 6 {
        "SEI"@
    } else if ty == 7 {
        "SPS"@
    } else if ty == 8 {
        "PPS"@
    } else if ty == 9 {
        "AUD"@
    } else {
        "other"@
    }
}

/// A type of NAL unit by name and number.
pub open spec fn nal_text(ty: u8) -> Seq<char> {
    nal_name(ty) + "("@ + text::decimal(ty as nat) + ")"@
}

/// The types one after the other, with commas between them.
pub open spec fn joined(types: Seq<u8>) -> Seq<char>
    decreases types.len(),
{
    if types.len() == 0 {
        Seq::empty()
    } else if types.len() == 1 {
        nal_text(types[0])
    } else {
        joined(types.drop_last()) + ", "@ + nal_text(types.last())
    }
}

/// The description of a stream.
pub open spec fn description(data: Seq<u8>) -> Seq<char> {
    if nal_types(data, 0).len() == 0 {
        "none"@
    } else {
        joined(nal_types(data, 0))
    }
}

fn append_nal(out: &mut String, ty: u8)
    ensures
        final(out)@ == old(out)@ + nal_text(ty),
{
    let name = if ty == 1 {
        "P-slice"
    } else if ty == 5 {
        "IDR"
    } else if ty == 6 {
        "SEI"
    } else if ty == 7 {
        "SPS"
    } else if ty == 8 {
        "PPS"
    } else if ty == 9 {
        "AUD"
    } else {
        "other"
    };
    out.append(name);
    out.append("(");
    text::append_decimal(out, ty as u32);
    out.append(")");
    assert(out@ =~= old(out)@ + nal_text(ty));
}

/// Describes the NAL units of an Annex B stream: name and number of each type.
pub fn describe_h264_nals(data: &[u8]) -> (r: String)
    ensures
        r@ == description(data@),
{
    let mut out: String = String::new();
    let ghost mut found: Seq<u8> = Seq::empty();
    let len: usize = data.len();
    let mut i: usize = 0;
    let mut any: bool = false;
    while i < len
        invariant
            len == data@.len(),
            out@ == joined(found),
            any == (found.len() > 0),
            found + nal_types(data@, i as int) == nal_types(data@, 0),
        decreases len - i,
    {
        if len - i > 3 && data[i] == 0 && data[i + 1] == 0 {
            let code: usize = if data[i + 2] == 1 {
                3
            } else if data[i + 2] == 0 && data[i + 3] == 1 {
                4
            } else {
                0
            };
            if code == 0 {
                i += 1;
            } else {
                let at: usize = i + code;
                if at < len {
                    let ty: u8 = data[at] % 32;
                    if any {
                        out.append(", ");
                    }
                    append_nal(&mut out, ty);
                    proof {
                        let next = found.push(ty);
                        assert(next.drop_last() =~= found);
                        assert(out@ =~= joined(next));
                        assert(next + nal_types(data@, at + 1) =~= found + nal_types(
                            data@,
                            i as int,
                        ));
                        found = next;
                    }
                    any = true;
                    i = at + 1;
                } else {
                    i = len;
                }
            }
        } else {
            i += 1;
        }
    }
    assert(found =~= nal_types(data@, 0));
    if any {
        out
    } else {
        "none".to_owned()
    }
}

/// A stream of NAL units, each behind a start code of four bytes or of three.
pub open spec fn annex_b(nals: Seq<(bool, Seq<u8>)>) -> Seq<u8>
    decreases nals.len(),
{
    if nals.len() == 0 {
        Seq::empty()
    } else {
        code_bytes(nals[0].0) + nals[0].1 + annex_b(nals.drop_first())
    }
}

/// The start code of four bytes, or of three.
pub open spec fn code_bytes(long: bool) -> Seq<u8> {
    if long { seq![0u8, 0u8, 0u8, 1u8] } else { seq![0u8, 0u8, 1u8] }
}

/// What the standard asks of a NAL unit: it has a first byte; behind that no start code
/// occurs, and the last byte is not zero.
pub open spec fn proper_nal(nal: Seq<u8>) -> bool {
    &&& nal.len() > 0
    &&& nal.len() > 1 ==> nal.last() != 0
    &&& forall|k: int|
        0 < k < nal.len() - 2 ==> !(#[trigger] nal[k] == 0 && nal[k + 1] == 0 && nal[k + 2] == 1)
}

proof fn lemma_skip(data: Seq<u8>, i: int, j: int)
    requires
        0 <= i <= j <= data.len(),
        forall|k: int| i <= k < j ==> #[trigger] start_code(data, k) == 0,
    ensures
        nal_types(data, i) == nal_types(data, j),
    decreases j - i,
{
    if i < j {
        assert(start_code(data, i) == 0);
        lemma_skip(data, i + 1, j);
    }
}

proof fn lemma_stream_types(data: Seq<u8>, at: int, nals: Seq<(bool, Seq<u8>)>)
    requires
        0 <= at <= data.len(),
        data.subrange(at, data.len() as int) == annex_b(nals),
        forall|i: int| 0 <= i < nals.len() ==> proper_nal(#[trigger] nals[i].1),
    ensures
        nal_types(data, at) == nals.map_values(|n: (bool, Seq<u8>)| (n.1[0] % 32) as u8),
    decreases nals.len(),
{
    let tail = data.subrange(at, data.len() as int);
    let types = nals.map_values(|n: (bool, Seq<u8>)| (n.1[0] % 32) as u8);
    if nals.len() == 0 {
        assert(types =~= nal_types(data, at));
    } else {
        let (long, nal) = nals[0];
        let rest = nals.drop_first();
        assert(proper_nal(nals[0].1));
        let code = code_bytes(long);
        let head = at + code.len();
        let end = head + nal.len();
        assert(tail =~= code + nal + annex_b(rest));
        assert(data.len() == end + annex_b(rest).len());
        assert forall|k: int| 0 <= k < code.len() implies data[at + k] == #[trigger] code[k] by {
            assert(tail[k] == data[at + k]);
        }
        assert(code[0] == 0 && code[1] == 0);
        assert forall|k: int| 0 <= k < nal.len() implies data[head + k] == #[trigger] nal[k] by {
            assert(tail[code.len() + k] == data[head + k]);
        }
        assert(nal[0] == data[head]);
        if long {
            assert(code[2] == 0 && code[3] == 1);
        } else {
            assert(code[2] == 1);
        }
        assert(start_code(data, at) == code.len());
        assert(data.subrange(end, data.len() as int) =~= annex_b(rest)) by {
            assert forall|k: int| 0 <= k < annex_b(rest).len() implies data[end + k]
                == #[trigger] annex_b(rest)[k] by {
                assert(tail[code.len() + nal.len() + k] == data[end + k]);
            }
        }
        assert forall|k: int| head + 1 <= k < end implies #[trigger] start_code(data, k) == 0 by {
            let p = k - head;
            assert(nal[p] == data[k]);
            assert(nal.last() == data[end - 1]);
            if k + 1 < end {
                assert(nal[p + 1] == data[k + 1]);
            }
            if k + 2 < end {
                assert(nal[p + 2] == data[k + 2]);
            }
            if k + 3 < end {
                assert(nal[p + 1] == data[k + 1]);
                assert(nal[p + 3] == data[k + 3]);
            }
        }
        lemma_skip(data, head + 1, end);
        assert forall|i: int| 0 <= i < rest.len() implies proper_nal(#[trigger] rest[i].1) by {
            assert(rest[i] == nals[i + 1]);
        }
        lemma_stream_types(data, end, rest);
        assert(types =~= nal_types(data, at));
    }
}

/// Out of a stream of NAL units the types of all of them are read back, in order.
pub proof fn law_types_read_back(nals: Seq<(bool, Seq<u8>)>)
    requires
        forall|i: int| 0 <= i < nals.len() ==> proper_nal(#[trigger] nals[i].1),
    ensures
        nal_types(annex_b(nals), 0) == nals.map_values(
            |n: (bool, Seq<u8>)| (n.1[0] % 32) as u8,
        ),
{
    let data = annex_b(nals);
    assert(data.subrange(0, data.len() as int) =~= data);
    lemma_stream_types(data, 0, nals);
}

/// The low five bits of the bytes at these places are the types; a start code of three bytes
/// stands ahead of each; and no start code is left out but one that starts with such a byte
/// itself.
spec fn places(data: Seq<u8>, from: int, at: Seq<int>, types: Seq<u8>) -> bool {
    &&& at.len() == types.len()
    &&& forall|i: int|
        0 <= i < at.len() ==> {
            &&& from + 3 <= #[trigger] at[i] < data.len()
            &&& data[at[i] - 3] == 0 && data[at[i] - 2] == 0 && data[at[i] - 1] == 1
            &&& types[i] == data[at[i]] % 32
        }
    &&& forall|i: int, j: int| 0 <= i < j < at.len() ==> #[trigger] at[i] < #[trigger] at[j]
    &&& forall|k: int|
        from <= k < data.len() - 3 && #[trigger] data[k] == 0 && data[k + 1] == 0 && data[k + 2]
            == 1 ==> at.contains(k + 3) || at.contains(k)
}

proof fn lemma_places(data: Seq<u8>, from: int) -> (at: Seq<int>)
    requires
        0 <= from,
    ensures
        places(data, from, at, nal_types(data, from)),
    decreases data.len() - from,
{
    let types = nal_types(data, from);
    if from >= data.len() {
        Seq::empty()
    } else if start_code(data, from) == 0 {
        let at = lemma_places(data, from + 1);
        assert forall|k: int|
            from <= k < data.len() - 3 && #[trigger] data[k] == 0 && data[k + 1] == 0 && data[k + 2]
                == 1 implies at.contains(k + 3) || at.contains(k) by {
            assert(k != from);
        }
        at
    } else {
        let here = from + start_code(data, from);
        if here < data.len() {
            let behind = lemma_places(data, here + 1);
            let rest = nal_types(data, here + 1);
            let at = seq![here] + behind;
            assert(at[0] == here);
            assert forall|i: int| 0 < i < at.len() implies #[trigger] at[i] == behind[i - 1] by {}
            assert forall|i: int| 0 < i < types.len() implies #[trigger] types[i]
                == rest[i - 1] by {}
            assert forall|i: int, j: int| 0 <= i < j < at.len() implies #[trigger] at[i]
                < #[trigger] at[j] by {
                assert(at[j] == behind[j - 1]);
                if i > 0 {
                    assert(at[i] == behind[i - 1]);
                }
            }
            assert forall|k: int|
                from <= k < data.len() - 3 && #[trigger] data[k] == 0 && data[k + 1] == 0
                    && data[k + 2] == 1 implies at.contains(k + 3) || at.contains(k) by {
                if k > here {
                    if behind.contains(k + 3) {
                        let i = choose|i: int| 0 <= i < behind.len() && behind[i] == k + 3;
                        assert(at[i + 1] == k + 3);
                    } else {
                        let i = choose|i: int| 0 <= i < behind.len() && behind[i] == k;
                        assert(at[i + 1] == k);
                    }
                } else if start_code(data, from) == 3 {
                    assert(k != from + 1 && k != from + 2);
                } else {
                    assert(k != from && k != from + 2 && k != from + 3);
                }
            }
            at
        } else {
            Seq::empty()
        }
    }
}

/// In any stream, proper or not, each type is read off the byte behind a start code, in the
/// order of the stream; and behind every start code with a byte to follow a type is read,
/// unless the start code begins with the byte of another type.
pub proof fn law_types_read_in_place(data: Seq<u8>) -> (at: Seq<int>)
    ensures
        at.len() == nal_types(data, 0).len(),
        forall|i: int|
            0 <= i < at.len() ==> {
                &&& 3 <= #[trigger] at[i] < data.len()
                &&& data[at[i] - 3] == 0 && data[at[i] - 2] == 0 && data[at[i] - 1] == 1
                &&& nal_types(data, 0)[i] == data[at[i]] % 32
            },
        forall|i: int, j: int| 0 <= i < j < at.len() ==> #[trigger] at[i] < #[trigger] at[j],
        forall|k: int|
            0 <= k < data.len() - 3 && #[trigger] data[k] == 0 && data[k + 1] == 0 && data[k + 2]
                == 1 ==> at.contains(k + 3) || at.contains(k),
{
    lemma_places(data, 0)
}

/// A type is written as its name, and its number in brackets: six types have a name of their
/// own. Types are written in order, with commas between them; a stream without any is none.
pub proof fn law_types_written(types: Seq<u8>, ty: u8, data: Seq<u8>)
    ensures
        nal_text(1) == "P-slice"@ + "("@ + text::decimal(1) + ")"@,
        nal_text(5) == "IDR"@ + "("@ + text::decimal(5) + ")"@,
        nal_text(6) == "SEI"@ + "("@ + text::decimal(6) + ")"@,
        nal_text(7) == "SPS"@ + "("@ + text::decimal(7) + ")"@,
        nal_text(8) == "PPS"@ + "("@ + text::decimal(8) + ")"@,
        nal_text(9) == "AUD"@ + "("@ + text::decimal(9) + ")"@,
        ty == 0 || 2 <= ty <= 4 || ty > 9 ==> nal_text(ty) == "other"@ + "("@ + text::decimal(
            ty as nat,
        ) + ")"@,
        joined(seq![ty]) == nal_text(ty),
        types.len() > 0 ==> joined(types.push(ty)) == joined(types) + ", "@ + nal_text(ty),
        nal_types(data, 0).len() == 0 ==> description(data) == "none"@,
        nal_types(data, 0).len() > 0 ==> description(data) == joined(nal_types(data, 0)),
{
    assert(types.push(ty).drop_last() =~= types);
}

/// A stream is described by the types of its units.
pub proof fn law_stream_described(data: &[u8], r: String)
    requires
        call_ensures(describe_h264_nals, (data,), r),
    ensures
        nal_types(data@, 0).len() == 0 ==> r@ == "none"@,
        nal_types(data@, 0).len() > 0 ==> r@ == joined(nal_types(data@, 0)),
{
}

} // verus!
