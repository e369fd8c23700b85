//! The persistent-log byte format. Each entry and the metadata record
//! have a fixed little-endian serialization, and the log file is the
//! concatenation of length-prefixed entry frames: a 64-bit length, then
//! that many payload bytes. Opening a file scans the frames back; the
//! round-trip lemmas state that everything written is read back
//! unchanged, which is what surviving a crash means for this store.

use vstd::prelude::*;
use crate::numbers::{from_le_bytes, le_bytes, lemma_le_bytes_len, lemma_le_bytes_round_trip,
    lemma_u64_fits_8_bytes, pow256, push_u64_le, read_u64_le};
use crate::raft::types::{models, Entry, EntryKind, EntryKindModel, EntryModel, Metadata, NodeId};

verus! {

/// The payload of the entry leaves room for the fixed header inside a
/// 64-bit frame length. True of every entry a `Vec` can hold.
pub open spec fn entry_fits(m: EntryModel) -> bool {
    match m.kind {
        EntryKindModel::NoOp => true,
        EntryKindModel::Command(p) => p.len() + 32 < pow256(8),
        EntryKindModel::AddNode { node_id, addr } => addr.len() + 32 < pow256(8),
        EntryKindModel::RemoveNode(_) => true,
    }
}

/// The serialization of one entry: the term, a kind tag, then the
/// payload of the kind, lengths as 64-bit little-endian prefixes.
pub open spec fn entry_bytes(m: EntryModel) -> Seq<u8> {
    le_bytes(m.term as nat, 8) + match m.kind {
        EntryKindModel::NoOp => seq![0u8],
        EntryKindModel::Command(p) => seq![1u8] + le_bytes(p.len(), 8) + p,
        EntryKindModel::AddNode { node_id, addr } => seq![2u8] + le_bytes(node_id as nat, 8)
            + le_bytes(addr.len(), 8) + addr,
        EntryKindModel::RemoveNode(n) => seq![3u8] + le_bytes(n as nat, 8),
    }
}

/// The entry read back from a frame payload; `None` when the bytes are
/// not the serialization of any entry.
pub open spec fn parse_entry(s: Seq<u8>) -> Option<EntryModel> {
    if s.len() < 9 {
        None
    } else {
        let term = from_le_bytes(s.subrange(0, 8)) as u64;
        if s[8] == 0 {
            if s.len() == 9 {
                Some(EntryModel { kind: EntryKindModel::NoOp, term })
            } else {
                None
            }
        } else if s[8] == 1 {
            if s.len() >= 17 && s.len() == 17 + from_le_bytes(s.subrange(9, 17)) {
                Some(EntryModel { kind: EntryKindModel::Command(s.skip(17)), term })
            } else {
                None
            }
        } else if s[8] == 2 {
            if s.len() >= 25 && s.len() == 25 + from_le_bytes(s.subrange(17, 25)) {
                Some(
                    EntryModel {
                        kind: EntryKindModel::AddNode {
                            node_id: from_le_bytes(s.subrange(9, 17)) as u64,
                            addr: s.skip(25),
                        },
                        term,
                    },
                )
            } else {
                None
            }
        } else if s[8] == 3 {
            if s.len() == 17 {
                Some(
                    EntryModel {
                        kind: EntryKindModel::RemoveNode(from_le_bytes(s.subrange(9, 17)) as u64),
                        term,
                    },
                )
            } else {
                None
            }
        } else {
            None
        }
    }
}

/// The serialization of the metadata record: the term, then a tag for
/// whether a vote was cast and for whom.
pub open spec fn metadata_bytes(m: Metadata) -> Seq<u8> {
    le_bytes(m.current_term as nat, 8) + match m.voted_for {
        None => seq![0u8],
        Some(id) => seq![1u8] + le_bytes(id.0 as nat, 8),
    }
}

/// The metadata read back; `None` when the bytes are not the
/// serialization of any record.
pub open spec fn parse_metadata(s: Seq<u8>) -> Option<Metadata> {
    if s.len() < 9 {
        None
    } else {
        let term = from_le_bytes(s.subrange(0, 8)) as u64;
        if s[8] == 0 && s.len() == 9 {
            Some(Metadata { current_term: term, voted_for: None })
        } else if s[8] == 1 && s.len() == 17 {
            Some(
                Metadata {
                    current_term: term,
                    voted_for: Some(NodeId(from_le_bytes(s.subrange(9, 17)) as u64)),
                },
            )
        } else {
            None
        }
    }
}

/// A length-prefixed frame around a payload.
pub open spec fn frame_bytes(payload: Seq<u8>) -> Seq<u8> {
    le_bytes(payload.len(), 8) + payload
}

/// The whole log file: one frame per entry, in log order.
pub open spec fn log_bytes(es: Seq<EntryModel>) -> Seq<u8>
    decreases es.len(),
{
    if es.len() == 0 {
        Seq::empty()
    } else {
        frame_bytes(entry_bytes(es[0])) + log_bytes(es.skip(1))
    }
}

/// The entries read back by the opening scan: length prefixes are
/// followed until the file ends or a frame is cut short; a frame that
/// parses as no entry ends the scan too.
pub open spec fn parse_log(s: Seq<u8>) -> Seq<EntryModel>
    decreases s.len(),
{
    if s.len() < 8 {
        Seq::empty()
    } else {
        let n = from_le_bytes(s.subrange(0, 8));
        if s.len() < 8 + n as int {
            Seq::empty()
        } else {
            match parse_entry(s.subrange(8, 8 + n as int)) {
                Some(m) => seq![m] + parse_log(s.skip(8 + n as int)),
                None => Seq::empty(),
            }
        }
    }
}

/// An entry read back from its own serialization is itself.
pub proof fn lemma_entry_round_trip(m: EntryModel)
    requires
        entry_fits(m),
    ensures
        parse_entry(entry_bytes(m)) == Some(m),
{
    let s = entry_bytes(m);
    lemma_le_bytes_len(m.term as nat, 8);
    assert(s.subrange(0, 8) =~= le_bytes(m.term as nat, 8));
    lemma_u64_fits_8_bytes(m.term);
    lemma_le_bytes_round_trip(m.term as nat, 8);
    match m.kind {
        EntryKindModel::NoOp => {
            assert(s.len() == 9);
            assert(s[8] == 0);
        },
        EntryKindModel::Command(p) => {
            lemma_le_bytes_len(p.len(), 8);
            assert(s[8] == 1);
            assert(s.subrange(9, 17) =~= le_bytes(p.len(), 8));
            lemma_le_bytes_round_trip(p.len(), 8);
            assert(s.len() == 17 + p.len());
            assert(s.skip(17) =~= p);
        },
        EntryKindModel::AddNode { node_id, addr } => {
            lemma_le_bytes_len(node_id as nat, 8);
            lemma_le_bytes_len(addr.len(), 8);
            assert(s[8] == 2);
            assert(s.subrange(9, 17) =~= le_bytes(node_id as nat, 8));
            assert(s.subrange(17, 25) =~= le_bytes(addr.len(), 8));
            lemma_u64_fits_8_bytes(node_id);
            lemma_le_bytes_round_trip(node_id as nat, 8);
            lemma_le_bytes_round_trip(addr.len(), 8);
            assert(s.len() == 25 + addr.len());
            assert(s.skip(25) =~= addr);
        },
        EntryKindModel::RemoveNode(n) => {
            lemma_le_bytes_len(n as nat, 8);
            assert(s[8] == 3);
            assert(s.len() == 17);
            assert(s.subrange(9, 17) =~= le_bytes(n as nat, 8));
            lemma_u64_fits_8_bytes(n);
            lemma_le_bytes_round_trip(n as nat, 8);
        },
    }
}

/// A metadata record read back from its own serialization is itself.
pub proof fn lemma_metadata_round_trip(m: Metadata)
    ensures
        parse_metadata(metadata_bytes(m)) == Some(m),
{
    let s = metadata_bytes(m);
    lemma_le_bytes_len(m.current_term as nat, 8);
    assert(s.subrange(0, 8) =~= le_bytes(m.current_term as nat, 8));
    lemma_u64_fits_8_bytes(m.current_term);
    lemma_le_bytes_round_trip(m.current_term as nat, 8);
    match m.voted_for {
        None => {
            assert(s[8] == 0);
            assert(s.len() == 9);
        },
        Some(id) => {
            lemma_le_bytes_len(id.0 as nat, 8);
            assert(s[8] == 1);
            assert(s.len() == 17);
            assert(s.subrange(9, 17) =~= le_bytes(id.0 as nat, 8));
            lemma_u64_fits_8_bytes(id.0);
            lemma_le_bytes_round_trip(id.0 as nat, 8);
        },
    }
}

/// Appending one more entry extends the file bytes by one frame.
pub proof fn lemma_log_bytes_push(es: Seq<EntryModel>, m: EntryModel)
    ensures
        log_bytes(es.push(m)) == log_bytes(es) + frame_bytes(entry_bytes(m)),
    decreases es.len(),
{
    let p = es.push(m);
    if es.len() == 0 {
        assert(p[0] == m);
        assert(p.skip(1) =~= Seq::<EntryModel>::empty());
        assert(log_bytes(p.skip(1)) == Seq::<u8>::empty());
        assert(log_bytes(p) == frame_bytes(entry_bytes(m)) + log_bytes(p.skip(1)));
        assert(log_bytes(es) == Seq::<u8>::empty());
        assert(log_bytes(p) =~= log_bytes(es) + frame_bytes(entry_bytes(m)));
    } else {
        assert(p.skip(1) =~= es.skip(1).push(m));
        lemma_log_bytes_push(es.skip(1), m);
        assert(log_bytes(p.skip(1)) == log_bytes(es.skip(1)) + frame_bytes(entry_bytes(m)));
        assert(p[0] == es[0]);
        assert(log_bytes(p) == frame_bytes(entry_bytes(p[0])) + log_bytes(p.skip(1)));
        assert(log_bytes(es) == frame_bytes(entry_bytes(es[0])) + log_bytes(es.skip(1)));
        assert(log_bytes(p) =~= log_bytes(es) + frame_bytes(entry_bytes(m)));
    }
}

/// The scan of a well-formed log file yields exactly the entries that
/// were written: what survives a crash after a flush is what was
/// appended.
pub proof fn lemma_log_round_trip(es: Seq<EntryModel>)
    requires
        forall|i: int| 0 <= i < es.len() ==> entry_fits(#[trigger] es[i]),
    ensures
        parse_log(log_bytes(es)) == es,
    decreases es.len(),
{
    if es.len() == 0 {
    } else {
        let m = es[0];
        let payload = entry_bytes(m);
        let s = log_bytes(es);
        lemma_le_bytes_len(payload.len(), 8);
        assert(entry_bytes_len_bound(m)) by {
            lemma_entry_bytes_len(m);
        };
        assert(s =~= le_bytes(payload.len(), 8) + payload + log_bytes(es.skip(1)));
        assert(s.subrange(0, 8) =~= le_bytes(payload.len(), 8));
        lemma_le_bytes_round_trip(payload.len(), 8);
        assert(s.len() == 8 + payload.len() + log_bytes(es.skip(1)).len());
        assert(s.subrange(8, 8 + payload.len() as int) =~= payload);
        lemma_entry_round_trip(m);
        assert(s.skip(8 + payload.len() as int) =~= log_bytes(es.skip(1)));
        assert(forall|i: int|
            0 <= i < es.skip(1).len() ==> entry_fits(#[trigger] es.skip(1)[i]));
        lemma_log_round_trip(es.skip(1));
        assert(parse_log(s) =~= seq![m] + es.skip(1));
        assert(seq![m] + es.skip(1) =~= es);
    }
}

/// The serialized entry is shorter than the largest 64-bit frame.
pub open spec fn entry_bytes_len_bound(m: EntryModel) -> bool {
    entry_bytes(m).len() < pow256(8)
}

pub proof fn lemma_entry_bytes_len(m: EntryModel)
    requires
        entry_fits(m),
    ensures
        entry_bytes_len_bound(m),
{
    assert(pow256(8) >= 72057594037927936) by {
        reveal_with_fuel(pow256, 9);
    };
    lemma_le_bytes_len(m.term as nat, 8);
    match m.kind {
        EntryKindModel::NoOp => {},
        EntryKindModel::Command(p) => {
            lemma_le_bytes_len(p.len(), 8);
        },
        EntryKindModel::AddNode { node_id, addr } => {
            lemma_le_bytes_len(node_id as nat, 8);
            lemma_le_bytes_len(addr.len(), 8);
        },
        EntryKindModel::RemoveNode(n) => {
            lemma_le_bytes_len(n as nat, 8);
        },
    }
}

/// Serializes one entry.
pub fn encode_entry(e: &Entry) -> (r: Vec<u8>)
    ensures
        r@ == entry_bytes(e@),
{
    let mut out: Vec<u8> = Vec::new();
    push_u64_le(&mut out, e.term);
    match &e.kind {
        EntryKind::NoOp => {
            out.push(0);
        },
        EntryKind::Command(p) => {
            out.push(1);
            push_u64_le(&mut out, p.len() as u64);
            push_all(&mut out, p);
        },
        EntryKind::AddNode { node_id, addr } => {
            out.push(2);
            push_u64_le(&mut out, node_id.0);
            push_u64_le(&mut out, addr.len() as u64);
            push_all(&mut out, addr);
        },
        EntryKind::RemoveNode(n) => {
            out.push(3);
            push_u64_le(&mut out, n.0);
        },
    }
    proof {
        assert(out@ =~= entry_bytes(e@));
    }
    out
}

/// Serializes the metadata record.
pub fn encode_metadata(m: &Metadata) -> (r: Vec<u8>)
    ensures
        r@ == metadata_bytes(*m),
{
    let mut out: Vec<u8> = Vec::new();
    push_u64_le(&mut out, m.current_term);
    match m.voted_for {
        None => {
            out.push(0);
        },
        Some(id) => {
            out.push(1);
            push_u64_le(&mut out, id.0);
        },
    }
    proof {
        assert(out@ =~= metadata_bytes(*m));
    }
    out
}

/// Reads one entry back from the bytes of a whole frame payload.
pub fn decode_entry(buf: &Vec<u8>) -> (r: Option<Entry>)
    ensures
        match r {
            Some(e) => parse_entry(buf@) == Some(e@),
            None => parse_entry(buf@) is None,
        },
{
    let len: usize = buf.len();
    if len < 9 {
        return None;
    }
    let term: u64 = read_u64_le(buf, 0);
    let tag: u8 = buf[8];
    if tag == 0 {
        if len == 9 {
            Some(Entry { kind: EntryKind::NoOp, term })
        } else {
            None
        }
    } else if tag == 1 {
        if len < 17 {
            return None;
        }
        let plen: u64 = read_u64_le(buf, 9);
        if (len as u64) >= 17 && (len - 17) as u64 == plen {
            let payload = copy_range(buf, 17, len);
            proof {
                assert(payload@ =~= buf@.skip(17));
            }
            Some(Entry { kind: EntryKind::Command(payload), term })
        } else {
            None
        }
    } else if tag == 2 {
        if len < 25 {
            return None;
        }
        let node: u64 = read_u64_le(buf, 9);
        let alen: u64 = read_u64_le(buf, 17);
        if (len - 25) as u64 == alen {
            let addr = copy_range(buf, 25, len);
            proof {
                assert(addr@ =~= buf@.skip(25));
            }
            Some(Entry { kind: EntryKind::AddNode { node_id: NodeId(node), addr }, term })
        } else {
            None
        }
    } else if tag == 3 {
        if len == 17 {
            let node: u64 = read_u64_le(buf, 9);
            Some(Entry { kind: EntryKind::RemoveNode(NodeId(node)), term })
        } else {
            None
        }
    } else {
        None
    }
}

/// Reads the metadata record back from the bytes of the metadata file.
pub fn decode_metadata(buf: &Vec<u8>) -> (r: Option<Metadata>)
    ensures
        r == parse_metadata(buf@),
{
    let len: usize = buf.len();
    if len < 9 {
        return None;
    }
    let term: u64 = read_u64_le(buf, 0);
    let tag: u8 = buf[8];
    if tag == 0 && len == 9 {
        Some(Metadata { current_term: term, voted_for: None })
    } else if tag == 1 && len == 17 {
        let node: u64 = read_u64_le(buf, 9);
        Some(Metadata { current_term: term, voted_for: Some(NodeId(node)) })
    } else {
        None
    }
}

/// Appends one length-prefixed entry frame to the file image.
pub fn append_frame(file: &mut Vec<u8>, e: &Entry)
    ensures
        final(file)@ == old(file)@ + frame_bytes(entry_bytes(e@)),
{
    let payload = encode_entry(e);
    push_u64_le(file, payload.len() as u64);
    push_all(file, &payload);
    proof {
        assert(file@ =~= old(file)@ + frame_bytes(entry_bytes(e@)));
    }
}

/// Scans a log file image from the start, as opening the store does:
/// every whole, well-formed frame yields its entry, and the scan stops
/// at the first cut-short or malformed one.
pub fn scan_log(file: &Vec<u8>) -> (r: Vec<Entry>)
    ensures
        models(r@) == parse_log(file@),
{
    let len: usize = file.len();
    let mut out: Vec<Entry> = Vec::new();
    let mut off: usize = 0;
    proof {
        assert(file@.skip(0) =~= file@);
        assert(models(out@) + parse_log(file@) =~= parse_log(file@));
    }
    loop
        invariant
            off <= len == file@.len(),
            models(out@) + parse_log(file@.skip(off as int)) == parse_log(file@),
        decreases len - off,
    {
        let ghost rest = file@.skip(off as int);
        if len - off < 8 {
            proof {
                assert(parse_log(rest) =~= Seq::<EntryModel>::empty());
                assert(models(out@) =~= parse_log(file@));
            }
            return out;
        }
        let n: u64 = read_u64_le(file, off);
        proof {
            assert(rest.subrange(0, 8) =~= file@.subrange(off as int, off + 8));
            assert(from_le_bytes(rest.subrange(0, 8)) == n);
        }
        if n > (len - off - 8) as u64 {
            proof {
                assert(rest.len() < 8 + n);
                assert(parse_log(rest) =~= Seq::<EntryModel>::empty());
                assert(models(out@) =~= parse_log(file@));
            }
            return out;
        }
        let frame_end: usize = off + 8 + (n as usize);
        let payload = copy_range(file, off + 8, frame_end);
        proof {
            assert(payload@ =~= rest.subrange(8, 8 + n as int));
        }
        match decode_entry(&payload) {
            Some(e) => {
                let ghost prev = out@;
                let ghost em = e@;
                out.push(e);
                proof {
                    assert(file@.skip(frame_end as int) =~= rest.skip(8 + n as int));
                    assert(parse_log(rest) =~= seq![em] + parse_log(rest.skip(8 + n as int)));
                    assert(models(out@) =~= models(prev).push(em));
                    assert(models(out@) + parse_log(file@.skip(frame_end as int)) =~= parse_log(
                        file@,
                    ));
                }
                off = frame_end;
            },
            None => {
                proof {
                    assert(parse_log(rest) =~= Seq::<EntryModel>::empty());
                    assert(models(out@) =~= parse_log(file@));
                }
                return out;
            },
        }
    }
}

/// A fresh vector holding `buf[from..to]`.
pub fn copy_range(buf: &Vec<u8>, from: usize, to: usize) -> (r: Vec<u8>)
    requires
        from <= to <= buf@.len(),
    ensures
        r@ == buf@.subrange(from as int, to as int),
{
    let mut out: Vec<u8> = Vec::new();
    let mut i: usize = from;
    proof {
        assert(out@ =~= buf@.subrange(from as int, from as int));
    }
    while i < to
        invariant
            from <= i <= to <= buf@.len(),
            out@ == buf@.subrange(from as int, i as int),
        decreases to - i,
    {
        out.push(buf[i]);
        proof {
            assert(out@ =~= buf@.subrange(from as int, i + 1));
        }
        i = i + 1;
    }
    out
}

/// Appends all of `src` to `out`.
pub fn push_all(out: &mut Vec<u8>, src: &Vec<u8>)
    ensures
        final(out)@ == old(out)@ + src@,
{
    let len: usize = src.len();
    let mut i: usize = 0;
    proof {
        assert(out@ =~= old(out)@ + src@.take(0));
    }
    while i < len
        invariant
            i <= len == src@.len(),
            out@ == old(out)@ + src@.take(i as int),
        decreases len - i,
    {
        out.push(src[i]);
        proof {
            assert(out@ =~= old(out)@ + src@.take(i + 1));
        }
        i = i + 1;
    }
    proof {
        assert(out@ =~= old(out)@ + src@);
    }
}

} // verus!
