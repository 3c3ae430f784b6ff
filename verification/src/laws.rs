use vstd::prelude::*;

use crate::error::Error;
use crate::format::{
    entry_bytes, entry_size, lemma_pad_len, lemma_u32_be_round_trip, lemma_u64_be_round_trip,
    pad_len, read_at, u32_be_bytes, u64_be_bytes, u64_from_be, zeros,
};
use crate::log::{append_spec, flush_spec, open_spec, LogView};

verus! {

/// An encoded entry occupies exactly `entry_size` bytes.
pub proof fn lemma_entry_bytes_len(data: Seq<u8>, start: int, pad_size: int)
    requires
        pad_size > 0,
        0 <= start,
    ensures
        entry_bytes(data, start, pad_size).len() == entry_size(data.len() as int, start, pad_size),
        13 <= entry_size(data.len() as int, start, pad_size),
{
    lemma_pad_len(start + 12 + data.len(), pad_size);
}

/// Reading at the offset where an encoded entry sits in the container
/// yields that entry's payload and the offset just past the entry.
pub proof fn lemma_read_entry(file: Seq<u8>, pad_size: int, off: int, data: Seq<u8>)
    requires
        pad_size > 0,
        0 <= off,
        data.len() <= u64::MAX,
        off + entry_size(data.len() as int, off, pad_size) <= file.len(),
        file.subrange(off, off + entry_size(data.len() as int, off, pad_size)) == entry_bytes(
            data,
            off,
            pad_size,
        ),
    ensures
        read_at(file, pad_size, off) == Ok::<(Seq<u8>, int), Error>(
            (data, off + entry_size(data.len() as int, off, pad_size)),
        ),
{
    let esz = entry_size(data.len() as int, off, pad_size);
    let ebytes = entry_bytes(data, off, pad_size);
    lemma_entry_bytes_len(data, off, pad_size);
    let dl = data.len() as int;
    let lbytes = u64_be_bytes(data.len() as u64);
    let cbytes = u32_be_bytes(crate::format::crc32_of(data));

    assert(forall|i: int| 0 <= i < esz ==> file[off + i] == #[trigger] ebytes[i]) by {
        assert(forall|i: int|
            0 <= i < esz ==> #[trigger] file.subrange(off, off + esz)[i] == file[off + i]);
    }

    assert(forall|i: int| 0 <= i < 8 ==> #[trigger] ebytes[i] == lbytes[i]);
    assert forall|i: int| 8 <= i < 12 implies #[trigger] ebytes[i] == cbytes[i - 8] by {
        assert(ebytes[i] == (lbytes + cbytes)[i]);
    }
    assert forall|i: int| 12 <= i < 12 + dl implies #[trigger] ebytes[i] == data[i - 12] by {
        assert(ebytes[i] == (lbytes + cbytes + data)[i]);
        assert((lbytes + cbytes + data)[i] == data[i - 12]);
    }

    assert(file.subrange(off, off + 8) =~= lbytes);
    lemma_u64_be_round_trip(data.len() as u64);
    assert(u64_from_be(file.subrange(off, off + 8)) as int == dl);

    assert forall|j: int| 0 <= j < 4 implies file.subrange(off + 8, off + 12)[j] == cbytes[j] by {
        assert(file[off + 8 + j] == ebytes[8 + j]);
    }
    assert(file.subrange(off + 8, off + 12) =~= cbytes);
    lemma_u32_be_round_trip(crate::format::crc32_of(data));

    assert forall|j: int| 0 <= j < dl implies file.subrange(off + 12, off + 12 + dl)[j] == data[j]
    by {
        assert(file[off + 12 + j] == ebytes[12 + j]);
    }
    assert(file.subrange(off + 12, off + 12 + dl) =~= data);

    assert(read_at(file, pad_size, off) == Ok::<(Seq<u8>, int), Error>((data, off + esz)));
}

/// Round trip: appending any payload (the empty one included) and then
/// flushing makes the payload readable, unchanged, at the offset that the
/// append returned, with the read continuing just past the entry.
pub proof fn lemma_round_trip(v: LogView, data: Seq<u8>)
    requires
        v.wf(),
        data.len() <= u64::MAX,
    ensures
        read_at(flush_spec(append_spec(v, data)).file, v.pad_size, v.offset) == Ok::<
            (Seq<u8>, int),
            Error,
        >((data, v.offset + entry_size(data.len() as int, v.offset, v.pad_size))),
{
    let ebytes = entry_bytes(data, v.offset, v.pad_size);
    let esz = entry_size(data.len() as int, v.offset, v.pad_size);
    lemma_entry_bytes_len(data, v.offset, v.pad_size);
    let v1 = append_spec(v, data);
    let v2 = flush_spec(v1);
    let bp = pad_len(v1.offset + 16, v.block_size);
    lemma_pad_len(v1.offset + 16, v.block_size);
    assert(v2.file == v.file + (v.buffer + ebytes) + zeros(bp) + u64_be_bytes(v1.anchor as u64)
        + u64_be_bytes(v1.magic));
    assert(v2.file.subrange(v.offset, v.offset + esz) =~= ebytes);
    lemma_read_entry(v2.file, v.pad_size, v.offset, data);
}

/// Reopen recovery: after appending a payload and flushing, opening a log
/// over the resulting container bytes succeeds, restores the offset the
/// append returned as the recovery anchor, and reading at that anchor
/// yields the last-appended payload unchanged.
pub proof fn lemma_reopen_recovery(v: LogView, data: Seq<u8>)
    requires
        v.wf(),
        data.len() <= u64::MAX,
    ensures
        ({
            let v2 = flush_spec(append_spec(v, data));
            let opened = open_spec(v2.file, v.block_size, v.pad_size, v.magic);
            &&& opened is Ok
            &&& opened->Ok_0.anchor == v.offset
            &&& read_at(opened->Ok_0.file, v.pad_size, opened->Ok_0.anchor) == Ok::<
                (Seq<u8>, int),
                Error,
            >((data, v.offset + entry_size(data.len() as int, v.offset, v.pad_size)))
        }),
{
    let ebytes = entry_bytes(data, v.offset, v.pad_size);
    let esz = entry_size(data.len() as int, v.offset, v.pad_size);
    lemma_entry_bytes_len(data, v.offset, v.pad_size);
    let v1 = append_spec(v, data);
    let v2 = flush_spec(v1);
    let bp = pad_len(v1.offset + 16, v.block_size);
    lemma_pad_len(v1.offset + 16, v.block_size);
    let ab = u64_be_bytes(v.offset as u64);
    let mb = u64_be_bytes(v.magic);
    let prefix = v.file + (v.buffer + ebytes) + zeros(bp);
    assert(v2.file == prefix + ab + mb);
    let n = v2.file.len() as int;
    assert(n == v1.offset + bp + 16);
    assert(n % v.block_size == 0);

    assert forall|j: int| 0 <= j < 8 implies v2.file[n - 8 + j] == mb[j] by {
        assert(v2.file[n - 8 + j] == (prefix + ab + mb)[n - 8 + j]);
    }
    assert(v2.file.subrange(n - 8, n) =~= mb);
    lemma_u64_be_round_trip(v.magic);

    assert forall|j: int| 0 <= j < 8 implies v2.file[n - 16 + j] == ab[j] by {
        assert(v2.file[n - 16 + j] == (prefix + ab)[n - 16 + j]);
    }
    assert(v2.file.subrange(n - 16, n - 8) =~= ab);
    lemma_u64_be_round_trip(v.offset as u64);

    lemma_round_trip(v, data);
}

/// Corrupt container detection: a nonempty container whose size is not a
/// multiple of the block size opens as `InvalidLength`; a block-aligned one
/// whose final 8 bytes differ from the configured magic opens as
/// `InvalidMagic`.
pub proof fn lemma_corrupt_container_detection(
    contents: Seq<u8>,
    block_size: int,
    pad_size: int,
    magic: u64,
)
    requires
        block_size > 0,
        pad_size > 0,
        contents.len() > 0,
    ensures
        contents.len() as int % block_size != 0 ==> open_spec(
            contents,
            block_size,
            pad_size,
            magic,
        ) == Err::<LogView, Error>(Error::InvalidLength),
        (contents.len() as int % block_size == 0 && contents.len() >= 16 && u64_from_be(
            contents.subrange(contents.len() - 8, contents.len() as int),
        ) != magic) ==> open_spec(contents, block_size, pad_size, magic) == Err::<
            LogView,
            Error,
        >(Error::InvalidMagic),
{
}

/// A fresh log: opening an empty container succeeds with recovery anchor 0,
/// and sequential replay of it yields no payloads at all.
pub proof fn lemma_empty_log(block_size: int, pad_size: int, magic: u64)
    requires
        block_size > 0,
        pad_size > 0,
    ensures
        ({
            let opened = open_spec(Seq::empty(), block_size, pad_size, magic);
            &&& opened is Ok
            &&& opened->Ok_0.anchor == 0
            &&& replay(opened->Ok_0.file, pad_size, 0, 0) == Seq::<Seq<u8>>::empty()
        }),
{
}

/// A read touches only the bytes of the entry it decodes: two containers of
/// equal size that agree on those bytes read the same at that offset.  In
/// particular, corrupting a byte outside one entry leaves every read of
/// that entry untouched.
pub proof fn lemma_read_locality(file1: Seq<u8>, file2: Seq<u8>, pad_size: int, off: int)
    requires
        file1.len() == file2.len(),
        off + 12 <= file1.len() ==> ({
            let len = u64_from_be(file1.subrange(off, off + 8)) as int;
            forall|i: int|
                off <= i < off + 12 + len && i < file1.len() ==> #[trigger] file1[i] == file2[i]
        }),
    ensures
        read_at(file1, pad_size, off) == read_at(file2, pad_size, off),
{
    if 0 <= off && off + 12 <= file1.len() {
        assert(file1.subrange(off, off + 8) =~= file2.subrange(off, off + 8));
        let len = u64_from_be(file1.subrange(off, off + 8)) as int;
        if off + 12 + len <= file1.len() {
            assert(file1.subrange(off + 8, off + 12) =~= file2.subrange(off + 8, off + 12));
            assert(file1.subrange(off + 12, off + 12 + len) =~= file2.subrange(
                off + 12,
                off + 12 + len,
            ));
        }
    }
}

/// The payloads that sequential replay yields: starting from `cursor`,
/// while the cursor has not moved past `anchor`, read at the cursor and
/// continue at the entry's end; a failed read ends the sequence at once.
pub open spec fn replay(file: Seq<u8>, pad_size: int, anchor: int, cursor: int) -> Seq<Seq<u8>>
    decreases (if cursor > anchor { 0int } else { anchor + 1 - cursor }),
{
    if cursor > anchor {
        Seq::empty()
    } else {
        match read_at(file, pad_size, cursor) {
            Ok(p) => if p.1 > cursor {
                seq![p.0] + replay(file, pad_size, anchor, p.1)
            } else {
                seq![p.0]
            },
            Err(_) => Seq::empty(),
        }
    }
}

/// Whether sequential replay from `cursor` runs past `anchor` without any
/// failed read, so that the payloads it yields are the whole story.
pub open spec fn replay_clean(file: Seq<u8>, pad_size: int, anchor: int, cursor: int) -> bool
    decreases (if cursor > anchor { 0int } else { anchor + 1 - cursor }),
{
    if cursor > anchor {
        true
    } else {
        match read_at(file, pad_size, cursor) {
            Ok(p) => p.1 > cursor && replay_clean(file, pad_size, anchor, p.1),
            Err(_) => false,
        }
    }
}

/// The concatenated encodings of the payloads `ds`, laid out one after
/// another starting at `start`.
pub open spec fn entries_bytes(ds: Seq<Seq<u8>>, start: int, pad_size: int) -> Seq<u8>
    decreases ds.len(),
{
    if ds.len() == 0 {
        Seq::empty()
    } else {
        entry_bytes(ds[0], start, pad_size) + entries_bytes(
            ds.drop_first(),
            start + entry_size(ds[0].len() as int, start, pad_size),
            pad_size,
        )
    }
}

/// The offset just past the payloads `ds` laid out from `start`.
pub open spec fn entries_end(ds: Seq<Seq<u8>>, start: int, pad_size: int) -> int
    decreases ds.len(),
{
    if ds.len() == 0 {
        start
    } else {
        entries_end(
            ds.drop_first(),
            start + entry_size(ds[0].len() as int, start, pad_size),
            pad_size,
        )
    }
}

/// The header offset of the last of the payloads `ds` laid out from
/// `start`; `start` itself when there are none.
pub open spec fn entries_anchor(ds: Seq<Seq<u8>>, start: int, pad_size: int) -> int
    decreases ds.len(),
{
    if ds.len() <= 1 {
        start
    } else {
        entries_anchor(
            ds.drop_first(),
            start + entry_size(ds[0].len() as int, start, pad_size),
            pad_size,
        )
    }
}

/// The log state after appending each of the payloads `ds` in order.
pub open spec fn append_all(v: LogView, ds: Seq<Seq<u8>>) -> LogView
    decreases ds.len(),
{
    if ds.len() == 0 {
        v
    } else {
        append_all(append_spec(v, ds[0]), ds.drop_first())
    }
}

/// A layout of at least one entry keeps its last header at or past `start`
/// and strictly inside the layout, and takes exactly its bytes.
pub proof fn lemma_entries_layout_bounds(ds: Seq<Seq<u8>>, start: int, pad_size: int)
    requires
        pad_size > 0,
        0 <= start,
        ds.len() >= 1,
    ensures
        start <= entries_anchor(ds, start, pad_size),
        entries_anchor(ds, start, pad_size) + 13 <= entries_end(ds, start, pad_size),
        entries_bytes(ds, start, pad_size).len() == entries_end(ds, start, pad_size) - start,
    decreases ds.len(),
{
    let sz0 = entry_size(ds[0].len() as int, start, pad_size);
    lemma_entry_bytes_len(ds[0], start, pad_size);
    if ds.len() == 1 {
        assert(entries_end(ds.drop_first(), start + sz0, pad_size) == start + sz0);
        assert(entries_anchor(ds, start, pad_size) == start);
        assert(entries_bytes(ds.drop_first(), start + sz0, pad_size) == Seq::<u8>::empty());
    } else {
        lemma_entries_layout_bounds(ds.drop_first(), start + sz0, pad_size);
    }
}

/// Appending the payloads `ds` in order buffers exactly their layout from
/// the current cursor, moves the cursor to the layout's end, and anchors
/// the last entry's header.
pub proof fn lemma_append_all(v: LogView, ds: Seq<Seq<u8>>)
    ensures
        append_all(v, ds).file == v.file,
        append_all(v, ds).block_size == v.block_size,
        append_all(v, ds).pad_size == v.pad_size,
        append_all(v, ds).magic == v.magic,
        append_all(v, ds).buffer == v.buffer + entries_bytes(ds, v.offset, v.pad_size),
        append_all(v, ds).offset == entries_end(ds, v.offset, v.pad_size),
        ds.len() == 0 ==> append_all(v, ds).anchor == v.anchor,
        ds.len() >= 1 ==> append_all(v, ds).anchor == entries_anchor(ds, v.offset, v.pad_size),
    decreases ds.len(),
{
    if ds.len() == 0 {
        assert(v.buffer + entries_bytes(ds, v.offset, v.pad_size) =~= v.buffer);
    } else {
        let v1 = append_spec(v, ds[0]);
        lemma_append_all(v1, ds.drop_first());
        assert(append_all(v, ds).buffer =~= v.buffer + entries_bytes(ds, v.offset, v.pad_size));
    }
}

/// Replaying a container that holds the layout of `ds` from `start`, with
/// the anchor on the last of their headers, yields exactly `ds`, cleanly.
pub proof fn lemma_replay_entries(file: Seq<u8>, pad_size: int, ds: Seq<Seq<u8>>, start: int)
    requires
        pad_size > 0,
        0 <= start,
        ds.len() >= 1,
        forall|i: int| 0 <= i < ds.len() ==> #[trigger] ds[i].len() <= u64::MAX,
        entries_end(ds, start, pad_size) <= file.len(),
        file.subrange(start, entries_end(ds, start, pad_size)) == entries_bytes(
            ds,
            start,
            pad_size,
        ),
    ensures
        replay(file, pad_size, entries_anchor(ds, start, pad_size), start) == ds,
        replay_clean(file, pad_size, entries_anchor(ds, start, pad_size), start),
    decreases ds.len(),
{
    let sz0 = entry_size(ds[0].len() as int, start, pad_size);
    let e0 = entry_bytes(ds[0], start, pad_size);
    let end = entries_end(ds, start, pad_size);
    let anchor = entries_anchor(ds, start, pad_size);
    let eb = entries_bytes(ds, start, pad_size);
    let rest = ds.drop_first();
    lemma_entry_bytes_len(ds[0], start, pad_size);
    lemma_entries_layout_bounds(ds, start, pad_size);
    if ds.len() > 1 {
        lemma_entries_layout_bounds(rest, start + sz0, pad_size);
    }

    assert forall|i: int| 0 <= i < end - start implies file[start + i] == eb[i] by {
        assert(file.subrange(start, end)[i] == file[start + i]);
    }

    assert forall|j: int| 0 <= j < sz0 implies file.subrange(start, start + sz0)[j] == e0[j] by {
        assert(file[start + j] == eb[j]);
        assert(eb[j] == e0[j]);
    }
    assert(file.subrange(start, start + sz0) =~= e0);
    lemma_read_entry(file, pad_size, start, ds[0]);

    if ds.len() == 1 {
        assert(anchor == start);
        assert(start + sz0 > anchor);
        assert(replay(file, pad_size, anchor, start + sz0) == Seq::<Seq<u8>>::empty());
        assert(replay_clean(file, pad_size, anchor, start + sz0));
        assert(replay(file, pad_size, anchor, start) =~= seq![ds[0]]);
        assert(seq![ds[0]] =~= ds);
    } else {
        let rb = entries_bytes(rest, start + sz0, pad_size);
        assert forall|j: int|
            0 <= j < end - (start + sz0) implies file.subrange(start + sz0, end)[j] == rb[j] by {
            assert(file[start + sz0 + j] == eb[sz0 + j]);
            assert(eb[sz0 + j] == rb[j]);
        }
        assert(file.subrange(start + sz0, end) =~= rb);
        assert forall|i: int| 0 <= i < rest.len() implies #[trigger] rest[i].len() <= u64::MAX by {
            assert(rest[i] == ds[i + 1]);
        }
        lemma_replay_entries(file, pad_size, rest, start + sz0);
        assert(entries_anchor(rest, start + sz0, pad_size) == anchor);
        assert(replay(file, pad_size, anchor, start) =~= seq![ds[0]] + rest);
        assert(seq![ds[0]] + rest =~= ds);
    }
}

/// Sequential chaining: appending payloads to a fresh log and then
/// flushing once makes sequential replay from offset 0 yield exactly those
/// payloads, in order, with no failed read along the way.
pub proof fn lemma_sequential_chaining(
    ds: Seq<Seq<u8>>,
    block_size: int,
    pad_size: int,
    magic: u64,
)
    requires
        block_size > 0,
        pad_size > 0,
        ds.len() >= 1,
        forall|i: int| 0 <= i < ds.len() ==> #[trigger] ds[i].len() <= u64::MAX,
    ensures
        ({
            let opened = open_spec(Seq::empty(), block_size, pad_size, magic);
            let v2 = flush_spec(append_all(opened->Ok_0, ds));
            &&& opened is Ok
            &&& replay(v2.file, pad_size, v2.anchor, 0) == ds
            &&& replay_clean(v2.file, pad_size, v2.anchor, 0)
        }),
{
    let opened = open_spec(Seq::empty(), block_size, pad_size, magic);
    let v0 = opened->Ok_0;
    assert(v0.file =~= Seq::<u8>::empty());
    assert(v0.buffer =~= Seq::<u8>::empty());

    lemma_append_all(v0, ds);
    lemma_entries_layout_bounds(ds, 0, pad_size);
    let v1 = append_all(v0, ds);
    let end = entries_end(ds, 0, pad_size);
    let eb = entries_bytes(ds, 0, pad_size);
    assert(v1.buffer =~= eb);
    assert(v1.buffer.len() >= 13);

    let v2 = flush_spec(v1);
    let bp = pad_len(v1.offset + 16, block_size);
    lemma_pad_len(v1.offset + 16, block_size);
    assert(v2.file == v1.file + v1.buffer + zeros(bp) + u64_be_bytes(v1.anchor as u64)
        + u64_be_bytes(v1.magic));
    assert(v2.file.len() == end + bp + 16);

    assert forall|i: int| 0 <= i < end implies v2.file.subrange(0, end)[i] == eb[i] by {
        assert(v2.file[i] == (v1.file + v1.buffer)[i]);
    }
    assert(v2.file.subrange(0, end) =~= eb);
    lemma_replay_entries(v2.file, pad_size, ds, 0);
    assert(v2.anchor == entries_anchor(ds, 0, pad_size));
}

} // verus!
