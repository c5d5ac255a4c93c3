//! Reading an H.264 decoder configuration record (the `CodecPrivate` of an
//! `V_MPEG4/ISO/AVC` Matroska track) into an Annex B byte stream of its
//! sequence and picture parameter sets.
//!
//! Layout of the record as it is read here:
//!
//! | bytes            | content                                             |
//! |------------------|-----------------------------------------------------|
//! | 0..4             | version, profile, profile compatibility, level      |
//! | 4                | 6 reserved bits, 2 bits of NAL length size minus one|
//! | 5                | 3 reserved bits, 5 bits of SPS count                |
//! | ...              | each SPS: 16-bit big-endian length, then its bytes  |
//! | next             | PPS count (8 bits)                                  |
//! | ...              | each PPS: 16-bit big-endian length, then its bytes  |
//!
//! Bytes after the last PPS are not read.
use vstd::prelude::*;

verus! {

/// The four bytes that start every NAL unit in an Annex B stream.
pub open spec fn start_code() -> Seq<u8> {
    seq![0u8, 0u8, 0u8, 1u8]
}

/// The Annex B stream of `units`: each unit preceded by a start code.
pub open spec fn annex_b(units: Seq<Seq<u8>>) -> Seq<u8>
    decreases units.len(),
{
    if units.len() == 0 {
        Seq::empty()
    } else {
        annex_b(units.drop_last()) + start_code() + units.last()
    }
}

/// The 16-bit big-endian integer at `pos` in `s`.
pub open spec fn be_u16_at(s: Seq<u8>, pos: int) -> int {
    s[pos] * 256 + s[pos + 1]
}

/// `count` length-prefixed parameter sets read from `s` starting at `pos`:
/// the sets and the position just after the last one, or `None` where `s`
/// ends too early.
pub open spec fn parameter_sets(s: Seq<u8>, pos: int, count: nat) -> Option<(Seq<Seq<u8>>, int)>
    decreases count,
{
    if count == 0 {
        Some((Seq::empty(), pos))
    } else if pos + 2 > s.len() {
        None
    } else {
        let len = be_u16_at(s, pos);
        if pos + 2 + len > s.len() {
            None
        } else {
            match parameter_sets(s, pos + 2 + len, (count - 1) as nat) {
                Some((rest, end)) => Some((seq![s.subrange(pos + 2, pos + 2 + len)] + rest, end)),
                None => None,
            }
        }
    }
}

/// The number of SPS announced in a record (low 5 bits of byte 5).
pub open spec fn sps_count(s: Seq<u8>) -> nat {
    (s[5] % 32) as nat
}

/// The SPS and PPS lists of a decoder configuration record, or `None`
/// where the record is too short for what it announces.
pub open spec fn avc_config(s: Seq<u8>) -> Option<(Seq<Seq<u8>>, Seq<Seq<u8>>)> {
    if s.len() < 6 {
        None
    } else {
        match parameter_sets(s, 6, sps_count(s)) {
            None => None,
            Some((sps, end)) => if end + 1 > s.len() {
                None
            } else {
                match parameter_sets(s, end + 1, s[end] as nat) {
                    None => None,
                    Some((pps, _)) => Some((sps, pps)),
                }
            },
        }
    }
}

/// The Annex B stream that a record stands for: all SPS, then all PPS,
/// each behind a start code.
pub open spec fn avc_config_nalus(s: Seq<u8>) -> Option<Seq<u8>> {
    match avc_config(s) {
        Some((sps, pps)) => Some(annex_b(sps) + annex_b(pps)),
        None => None,
    }
}

/// Puts the sets already read in front of what is read from here on.
spec fn after_sets(
    done: Seq<Seq<u8>>,
    rest: Option<(Seq<Seq<u8>>, int)>,
) -> Option<(Seq<Seq<u8>>, int)> {
    match rest {
        Some((sets, end)) => Some((done + sets, end)),
        None => None,
    }
}

/// Appends `s[start..end]` to `out`.
pub(crate) fn append_range(out: &mut Vec<u8>, s: &[u8], start: usize, end: usize)
    requires
        start <= end <= s@.len(),
    ensures
        final(out)@ == old(out)@ + s@.subrange(start as int, end as int),
{
    let mut i = start;
    while i < end
        invariant
            start <= i <= end <= s@.len(),
            out@ == old(out)@ + s@.subrange(start as int, i as int),
        decreases end - i,
    {
        out.push(s[i]);
        i = i + 1;
        assert(out@ =~= old(out)@ + s@.subrange(start as int, i as int));
    }
}

/// Reads `count` parameter sets from `s` at `pos` and appends each, behind a
/// start code, to `out`. Returns the position after the last set, or `None`
/// where `s` ends too early.
fn read_parameter_sets(s: &[u8], pos: usize, count: usize, out: &mut Vec<u8>) -> (res: Option<usize>)
    requires
        pos <= s@.len(),
    ensures
        match parameter_sets(s@, pos as int, count as nat) {
            Some((sets, end)) => res == Some(end as usize) && pos <= end <= s@.len()
                && final(out)@ == old(out)@ + annex_b(sets),
            None => res is None,
        },
{
    let mut p = pos;
    let mut k: usize = 0;
    let ghost mut done: Seq<Seq<u8>> = Seq::empty();
    assert(done + Seq::<Seq<u8>>::empty() =~= done);
    while k < count
        invariant
            pos <= p <= s@.len(),
            k <= count,
            out@ == old(out)@ + annex_b(done),
            parameter_sets(s@, pos as int, count as nat) == after_sets(
                done,
                parameter_sets(s@, p as int, (count - k) as nat),
            ),
        decreases count - k,
    {
        if s.len() - p < 2 {
            return None;
        }
        let len: usize = (s[p] as usize) * 256 + (s[p + 1] as usize);
        if s.len() - p - 2 < len {
            return None;
        }
        let start = p + 2;
        let end = start + len;
        let ghost before = out@;
        out.push(0);
        out.push(0);
        out.push(0);
        out.push(1);
        append_range(out, s, start, end);
        proof {
            let unit = s@.subrange(start as int, end as int);
            let rest = parameter_sets(s@, end as int, (count - k - 1) as nat);
            assert(parameter_sets(s@, p as int, (count - k) as nat) == match rest {
                Some((r, e)) => Some((seq![unit] + r, e)),
                None => None,
            });
            match rest {
                Some((r, e)) => {
                    assert(done + (seq![unit] + r) =~= done.push(unit) + r);
                },
                None => {},
            }
            assert(done.push(unit).drop_last() =~= done);
            assert(out@ =~= old(out)@ + annex_b(done.push(unit)));
            done = done.push(unit);
        }
        p = end;
        k = k + 1;
    }
    assert(done + Seq::<Seq<u8>>::empty() =~= done);
    Some(p)
}

/// Reads a decoder configuration record into its Annex B stream, or `None`
/// where the record ends before what it announces.
pub fn parse_avc_config_record(codec_private: &[u8]) -> (res: Option<Vec<u8>>)
    ensures
        match avc_config_nalus(codec_private@) {
            Some(nalus) => res is Some && res.unwrap()@ == nalus,
            None => res is None,
        },
{
    let s = codec_private;
    if s.len() < 6 {
        return None;
    }
    let num_sps = (s[5] % 32) as usize;
    assert(num_sps as nat == sps_count(s@));
    let mut nalus: Vec<u8> = Vec::new();
    let end = match read_parameter_sets(s, 6, num_sps, &mut nalus) {
        Some(e) => e,
        None => return None,
    };
    if end >= s.len() {
        return None;
    }
    let num_pps = s[end] as usize;
    let ghost sps_part = nalus@;
    match read_parameter_sets(s, end + 1, num_pps, &mut nalus) {
        Some(_) => {},
        None => return None,
    }
    assert(Seq::<u8>::empty() + sps_part =~= sps_part);
    Some(nalus)
}

/// Reads a decoder configuration record into its Annex B stream: every SPS
/// and then every PPS, each behind the start code `00 00 00 01`.
pub fn read_avc_config_record(codec_private: &[u8]) -> (nalus: Vec<u8>)
    requires
        avc_config_nalus(codec_private@) is Some,
    ensures
        nalus@ == avc_config_nalus(codec_private@).unwrap(),
{
    match parse_avc_config_record(codec_private) {
        Some(v) => v,
        None => Vec::new(),
    }
}

/// The length-prefixed encoding of `sets`: each as a 16-bit big-endian
/// length and then its bytes.
pub open spec fn encode_parameter_sets(sets: Seq<Seq<u8>>) -> Seq<u8>
    decreases sets.len(),
{
    if sets.len() == 0 {
        Seq::empty()
    } else {
        let len = sets[0].len();
        seq![(len / 256) as u8, (len % 256) as u8] + sets[0] + encode_parameter_sets(
            sets.drop_first(),
        )
    }
}

/// A decoder configuration record holding `sps` and `pps`: the four leading
/// bytes `header`, then `byte4` (reserved bits and NAL length size), then
/// the three bits `reserved5` above the 5-bit SPS count.
pub open spec fn encode_avc_config(
    header: Seq<u8>,
    byte4: u8,
    reserved5: u8,
    sps: Seq<Seq<u8>>,
    pps: Seq<Seq<u8>>,
) -> Seq<u8> {
    header + seq![byte4, (reserved5 * 32 + sps.len()) as u8] + encode_parameter_sets(sps)
        + seq![pps.len() as u8] + encode_parameter_sets(pps)
}

/// What an encoder can put in a record: every set shorter than 64 KiB.
pub open spec fn encodable_sets(sets: Seq<Seq<u8>>) -> bool {
    forall|i: int| 0 <= i < sets.len() ==> #[trigger] sets[i].len() < 65536
}

/// Sets encoded behind any `prefix` and followed by any `suffix` are read
/// back exactly, ending where their encoding ends.
pub proof fn lemma_parameter_sets_roundtrip(prefix: Seq<u8>, sets: Seq<Seq<u8>>, suffix: Seq<u8>)
    requires
        encodable_sets(sets),
    ensures
        parameter_sets(
            prefix + encode_parameter_sets(sets) + suffix,
            prefix.len() as int,
            sets.len(),
        ) == Some((sets, (prefix.len() + encode_parameter_sets(sets).len()) as int)),
    decreases sets.len(),
{
    let s = prefix + encode_parameter_sets(sets) + suffix;
    if sets.len() > 0 {
        let unit = sets[0];
        let len = unit.len();
        let head = seq![(len / 256) as u8, (len % 256) as u8] + unit;
        let rest = sets.drop_first();
        assert(encodable_sets(rest)) by {
            assert forall|i: int| 0 <= i < rest.len() implies #[trigger] rest[i].len() < 65536 by {
                assert(rest[i] == sets[i + 1]);
            }
        }
        lemma_parameter_sets_roundtrip(prefix + head, rest, suffix);
        assert(encode_parameter_sets(sets) == head + encode_parameter_sets(rest));
        assert(s =~= (prefix + head) + encode_parameter_sets(rest) + suffix);
        let p = prefix.len() as int;
        assert(s[p] == (len / 256) as u8);
        assert(s[p + 1] == (len % 256) as u8);
        assert(be_u16_at(s, p) == len);
        assert(s.subrange(p + 2, p + 2 + len) =~= unit);
        assert(seq![unit] + rest =~= sets);
    } else {
        assert(sets =~= Seq::<Seq<u8>>::empty());
    }
}

/// A record built from SPS and PPS lists is read back as those lists,
/// whatever its header, reserved bits and NAL length size, and whatever
/// bytes follow it; so its Annex B stream is that of the SPS followed by that
/// of the PPS.
pub proof fn lemma_avc_config_roundtrip(
    header: Seq<u8>,
    byte4: u8,
    reserved5: u8,
    sps: Seq<Seq<u8>>,
    pps: Seq<Seq<u8>>,
    trailing: Seq<u8>,
)
    requires
        header.len() == 4,
        reserved5 < 8,
        sps.len() < 32,
        pps.len() < 256,
        encodable_sets(sps),
        encodable_sets(pps),
    ensures
        avc_config(encode_avc_config(header, byte4, reserved5, sps, pps) + trailing) == Some(
            (sps, pps),
        ),
        avc_config_nalus(encode_avc_config(header, byte4, reserved5, sps, pps) + trailing)
            == Some(annex_b(sps) + annex_b(pps)),
{
    let b5 = (reserved5 * 32 + sps.len()) as u8;
    let front = header + seq![byte4, b5];
    let enc_sps = encode_parameter_sets(sps);
    let mid = seq![pps.len() as u8];
    let enc_pps = encode_parameter_sets(pps);
    let s = encode_avc_config(header, byte4, reserved5, sps, pps) + trailing;
    assert(s =~= front + enc_sps + (mid + enc_pps + trailing));
    assert(s[5] == b5);
    assert(b5 == reserved5 * 32 + sps.len());
    assert(sps_count(s) == sps.len());
    lemma_parameter_sets_roundtrip(front, sps, mid + enc_pps + trailing);
    let end = (6 + enc_sps.len()) as int;
    assert(s =~= (front + enc_sps + mid) + enc_pps + trailing);
    assert(s[end] == pps.len() as u8);
    lemma_parameter_sets_roundtrip(front + enc_sps + mid, pps, trailing);
}

/// The Annex B stream of no units is empty, and appending a unit appends
/// the bytes `00 00 00 01` and then the unit's bytes unchanged; so a single
/// unit `u` becomes `00 00 00 01` followed by `u`.
pub proof fn lemma_annex_b_appends_units_verbatim(units: Seq<Seq<u8>>, u: Seq<u8>)
    ensures
        annex_b(Seq::<Seq<u8>>::empty()) == Seq::<u8>::empty(),
        annex_b(units.push(u)) == annex_b(units) + seq![0u8, 0u8, 0u8, 1u8] + u,
        annex_b(seq![u]) == seq![0u8, 0u8, 0u8, 1u8] + u,
        annex_b(units.push(u)).len() == annex_b(units).len() + 4 + u.len(),
{
    assert(units.push(u).drop_last() =~= units);
    assert(annex_b(Seq::<Seq<u8>>::empty()) == Seq::<u8>::empty());
    assert(seq![u].drop_last() =~= Seq::<Seq<u8>>::empty());
    assert(seq![u].last() == u);
    assert(Seq::<Seq<u8>>::empty().push(u).drop_last() =~= Seq::<Seq<u8>>::empty());
    assert(Seq::<u8>::empty() + seq![0u8, 0u8, 0u8, 1u8] + u =~= seq![0u8, 0u8, 0u8, 1u8] + u);
}

/// A record with one SPS `sps` and one PPS `pps` (each shorter than
/// 64 KiB), whatever its first five bytes, reserved bits and following
/// bytes, reads as `00 00 00 01`, the SPS bytes unchanged, `00 00 00 01`
/// and the PPS bytes unchanged.
pub proof fn lemma_single_set_record(
    header: Seq<u8>,
    byte4: u8,
    reserved5: u8,
    sps: Seq<u8>,
    pps: Seq<u8>,
    trailing: Seq<u8>,
)
    requires
        header.len() == 4,
        reserved5 < 8,
        sps.len() < 65536,
        pps.len() < 65536,
    ensures
        avc_config(
            header + seq![byte4, (reserved5 * 32 + 1) as u8, (sps.len() / 256) as u8, (sps.len()
                % 256) as u8] + sps + seq![1u8, (pps.len() / 256) as u8, (pps.len() % 256) as u8]
                + pps + trailing,
        ) == Some((seq![sps], seq![pps])),
        avc_config_nalus(
            header + seq![byte4, (reserved5 * 32 + 1) as u8, (sps.len() / 256) as u8, (sps.len()
                % 256) as u8] + sps + seq![1u8, (pps.len() / 256) as u8, (pps.len() % 256) as u8]
                + pps + trailing,
        ) == Some(seq![0u8, 0u8, 0u8, 1u8] + sps + seq![0u8, 0u8, 0u8, 1u8] + pps),
{
    let sps_sets = seq![sps];
    let pps_sets = seq![pps];
    assert(encodable_sets(sps_sets));
    assert(encodable_sets(pps_sets));
    assert(sps_sets.drop_first() =~= Seq::<Seq<u8>>::empty());
    assert(pps_sets.drop_first() =~= Seq::<Seq<u8>>::empty());
    let enc_sps = encode_parameter_sets(sps_sets);
    let enc_pps = encode_parameter_sets(pps_sets);
    assert(encode_parameter_sets(Seq::<Seq<u8>>::empty()) == Seq::<u8>::empty());
    assert(sps_sets[0] == sps && pps_sets[0] == pps);
    assert(enc_sps =~= seq![(sps.len() / 256) as u8, (sps.len() % 256) as u8] + sps);
    assert(enc_pps =~= seq![(pps.len() / 256) as u8, (pps.len() % 256) as u8] + pps);
    lemma_avc_config_roundtrip(header, byte4, reserved5, sps_sets, pps_sets, trailing);
    let built = encode_avc_config(header, byte4, reserved5, sps_sets, pps_sets) + trailing;
    let written = header + seq![byte4, (reserved5 * 32 + 1) as u8, (sps.len() / 256) as u8, (
    sps.len() % 256) as u8] + sps + seq![1u8, (pps.len() / 256) as u8, (pps.len() % 256) as u8]
        + pps + trailing;
    assert(built =~= written);
    lemma_annex_b_appends_units_verbatim(Seq::empty(), sps);
    lemma_annex_b_appends_units_verbatim(Seq::empty(), pps);
    assert(annex_b(sps_sets) + annex_b(pps_sets) =~= seq![0u8, 0u8, 0u8, 1u8] + sps + seq![
        0u8,
        0u8,
        0u8,
        1u8,
    ] + pps);
}

} // verus!
