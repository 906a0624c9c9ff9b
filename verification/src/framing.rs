use vstd::prelude::*;

verus! {

/// Fixed chunk size of the streaming framing, in bytes.
pub const CHUNK_SIZE: usize = 4096;

/// The chunking of a content: full chunks of `CHUNK_SIZE` bytes, then the
/// remainder; empty content has no chunks.
pub open spec fn chunks_of(content: Seq<u8>) -> Seq<Seq<u8>>
    decreases content.len(),
{
    if content.len() == 0 {
        Seq::empty()
    } else if content.len() <= CHUNK_SIZE as int {
        seq![content]
    } else {
        seq![content.take(CHUNK_SIZE as int)] + chunks_of(content.skip(CHUNK_SIZE as int))
    }
}

/// In-order concatenation of chunks.
pub open spec fn concat_chunks(chunks: Seq<Seq<u8>>) -> Seq<u8>
    decreases chunks.len(),
{
    if chunks.len() == 0 {
        Seq::empty()
    } else {
        chunks[0] + concat_chunks(chunks.skip(1))
    }
}

/// Chunking then concatenation restores the content.
pub proof fn lemma_chunks_concat(content: Seq<u8>)
    ensures
        concat_chunks(chunks_of(content)) == content,
    decreases content.len(),
{
    if content.len() == 0 {
        assert(concat_chunks(chunks_of(content)) =~= content);
    } else if content.len() <= CHUNK_SIZE as int {
        let cs = chunks_of(content);
        assert(cs == seq![content]);
        assert(cs[0] == content);
        assert(cs.skip(1) =~= Seq::<Seq<u8>>::empty());
        assert(concat_chunks(cs.skip(1)) == Seq::<u8>::empty());
        assert(content + Seq::<u8>::empty() =~= content);
    } else {
        let head = content.take(CHUNK_SIZE as int);
        let tail = content.skip(CHUNK_SIZE as int);
        lemma_chunks_concat(tail);
        let cs = chunks_of(content);
        assert(cs[0] == head);
        assert(cs.skip(1) =~= chunks_of(tail));
        assert(concat_chunks(cs) == head + concat_chunks(chunks_of(tail)));
        assert(head + tail =~= content);
    }
}

/// The byte views of a vector of chunks.
pub open spec fn chunk_views(v: Seq<Vec<u8>>) -> Seq<Seq<u8>> {
    v.map_values(|c: Vec<u8>| c@)
}

/// The byte views of a vector of opened chunks.
pub open spec fn opened_views(v: Seq<Option<Vec<u8>>>) -> Seq<Option<Seq<u8>>> {
    v.map_values(
        |o: Option<Vec<u8>>|
            match o {
                Some(p) => Some(p@),
                None => None,
            },
    )
}

/// Splits a content into its chunks.
pub fn split_chunks(content: &Vec<u8>) -> (chunks: Vec<Vec<u8>>)
    ensures
        chunk_views(chunks@) == chunks_of(content@),
{
    let n = content.len();
    let mut chunks: Vec<Vec<u8>> = Vec::new();
    let mut i: usize = 0;
    proof {
        assert(chunk_views(chunks@) =~= Seq::<Seq<u8>>::empty());
        assert(content@.skip(0) =~= content@);
        assert(Seq::<Seq<u8>>::empty() + chunks_of(content@) =~= chunks_of(content@));
    }
    while i < n
        invariant
            n == content@.len(),
            i <= content@.len(),
            chunks_of(content@) == chunk_views(chunks@) + chunks_of(content@.skip(i as int)),
        decreases content@.len() - i,
    {
        let take: usize = if content.len() - i > CHUNK_SIZE {
            CHUNK_SIZE
        } else {
            content.len() - i
        };
        let mut chunk: Vec<u8> = Vec::new();
        let mut j: usize = 0;
        while j < take
            invariant
                j <= take,
                i + take <= content@.len(),
                content@.len() <= usize::MAX,
                chunk@ == content@.subrange(i as int, i + j),
            decreases take - j,
        {
            chunk.push(content[i + j]);
            proof {
                assert(content@.subrange(i as int, i + j).push(content@[i + j]) =~= content@
                    .subrange(i as int, i + j + 1));
            }
            j = j + 1;
        }
        let ghost rest = content@.skip(i as int);
        let ghost cv = chunk@;
        let ghost prev = chunks@;
        proof {
            assert(cv =~= rest.take(take as int));
            if rest.len() <= CHUNK_SIZE as int {
                assert(cv =~= rest);
                assert(content@.skip((i + take) as int).len() == 0);
                assert(chunks_of(rest) == seq![rest]);
                assert(chunks_of(content@.skip((i + take) as int)) =~= Seq::<Seq<u8>>::empty());
                assert(seq![rest] =~= seq![cv] + chunks_of(content@.skip((i + take) as int)));
            } else {
                assert(take == CHUNK_SIZE);
                assert(rest.skip(CHUNK_SIZE as int) =~= content@.skip((i + take) as int));
                assert(chunks_of(rest) == seq![cv] + chunks_of(content@.skip((i + take) as int)));
            }
        }
        chunks.push(chunk);
        proof {
            assert(chunks@ == prev.push(chunks@.last()));
            assert(chunk_views(chunks@) =~= chunk_views(prev).push(cv));
            assert(chunk_views(prev).push(cv) =~= chunk_views(prev) + seq![cv]);
            assert((chunk_views(prev) + seq![cv]) + chunks_of(content@.skip((i + take) as int))
                =~= chunk_views(prev) + (seq![cv] + chunks_of(content@.skip((i + take) as int))));
        }
        i = i + take;
    }
    proof {
        assert(content@.skip(i as int).len() == 0);
        assert(chunks_of(content@.skip(i as int)) =~= Seq::<Seq<u8>>::empty());
        assert(chunk_views(chunks@) + Seq::<Seq<u8>>::empty() =~= chunk_views(chunks@));
    }
    chunks
}

/// The content one decrypt pass rebuilds: per chunk the opened plaintext
/// where authentication succeeded, else the raw chunk bytes unchanged — the
/// silent per-chunk fallback — concatenated in order.
pub open spec fn reassembled(raw: Seq<Seq<u8>>, opened: Seq<Option<Seq<u8>>>) -> Seq<u8>
    decreases raw.len(),
{
    if raw.len() == 0 {
        Seq::empty()
    } else {
        (match opened[0] {
            Some(p) => p,
            None => raw[0],
        }) + reassembled(raw.skip(1), opened.skip(1))
    }
}

/// Rebuilds a content from its raw chunks and the per-chunk opening results:
/// the truncate-and-rewrite image one decrypt pass leaves behind.
pub fn reassemble_decrypted(raw: &Vec<Vec<u8>>, opened: &Vec<Option<Vec<u8>>>) -> (out: Vec<u8>)
    requires
        raw@.len() == opened@.len(),
    ensures
        out@ == reassembled(chunk_views(raw@), opened_views(opened@)),
{
    let ghost rall = chunk_views(raw@);
    let ghost oall = opened_views(opened@);
    let mut out: Vec<u8> = Vec::new();
    let mut i: usize = 0;
    proof {
        assert(rall.skip(0) =~= rall);
        assert(oall.skip(0) =~= oall);
        assert(Seq::<u8>::empty() + reassembled(rall, oall) =~= reassembled(rall, oall));
    }
    while i < raw.len()
        invariant
            raw@.len() == opened@.len(),
            i <= raw@.len(),
            rall == chunk_views(raw@),
            oall == opened_views(opened@),
            reassembled(rall, oall) == out@ + reassembled(
                rall.skip(i as int),
                oall.skip(i as int),
            ),
        decreases raw@.len() - i,
    {
        let oi = &opened[i];
        let src: &Vec<u8> = match oi {
            Some(p) => p,
            None => &raw[i],
        };
        let ghost sv = (match oall[i as int] {
            Some(p) => p,
            None => rall[i as int],
        });
        proof {
            assert(oall[i as int] == (match opened@[i as int] {
                Some(p) => Some(p@),
                None => None::<Seq<u8>>,
            }));
            assert(rall[i as int] == raw@[i as int]@);
            assert(src@ == sv);
        }
        let ghost pre = out@;
        let mut j: usize = 0;
        while j < src.len()
            invariant
                j <= src@.len(),
                out@ == pre + src@.take(j as int),
            decreases src@.len() - j,
        {
            let b = src[j];
            out.push(b);
            proof {
                assert((pre + src@.take(j as int)).push(src@[j as int]) =~= pre + src@.take(
                    j + 1 as int,
                ));
            }
            j = j + 1;
        }
        proof {
            assert(src@.take(src@.len() as int) =~= src@);
            assert(rall.skip(i as int)[0] == rall[i as int]);
            assert(oall.skip(i as int)[0] == oall[i as int]);
            assert(rall.skip(i as int).skip(1) =~= rall.skip(i + 1));
            assert(oall.skip(i as int).skip(1) =~= oall.skip(i + 1));
            assert(reassembled(rall.skip(i as int), oall.skip(i as int)) == sv + reassembled(
                rall.skip(i + 1),
                oall.skip(i + 1),
            ));
            assert((pre + sv) + reassembled(rall.skip(i + 1), oall.skip(i + 1)) =~= pre + (sv
                + reassembled(rall.skip(i + 1), oall.skip(i + 1))));
        }
        i = i + 1;
    }
    proof {
        assert(rall.skip(i as int).len() == 0);
        assert(reassembled(rall.skip(i as int), oall.skip(i as int)) =~= Seq::<u8>::empty());
        assert(out@ + Seq::<u8>::empty() =~= out@);
    }
    out
}

/// One write of `data` at offset `off` into a file image: the image extends
/// as far as the write reaches, bytes the write does not cover keep their old
/// value, and a gap beyond the old end reads as zero.
pub open spec fn write_at(img: Seq<u8>, off: nat, data: Seq<u8>) -> Seq<u8> {
    Seq::new(
        if img.len() >= off + data.len() {
            img.len()
        } else {
            off + data.len()
        },
        |k: int|
            if off <= k < off + data.len() {
                data[k - off]
            } else if k < img.len() {
                img[k]
            } else {
                0u8
            },
    )
}

/// The image after the remaining chunks' ciphertexts are written, each at the
/// running plaintext offset. This is the reference framing's write-back: a
/// ciphertext longer than its plaintext chunk overwrites the start of the
/// bytes that follow, and the drift compounds chunk by chunk.
pub open spec fn reference_image_rec(
    img: Seq<u8>,
    off: nat,
    plain: Seq<Seq<u8>>,
    cipher: Seq<Seq<u8>>,
) -> Seq<u8>
    decreases plain.len(),
{
    if plain.len() == 0 {
        img
    } else {
        reference_image_rec(
            write_at(img, off, cipher[0]),
            (off + plain[0].len()) as nat,
            plain.skip(1),
            cipher.skip(1),
        )
    }
}

/// The file image one bulk pass of the reference framing leaves behind: chunk
/// by chunk, the ciphertext written over the image at the running plaintext
/// offset.
pub open spec fn reference_image(content: Seq<u8>, cipher: Seq<Seq<u8>>) -> Seq<u8> {
    reference_image_rec(content, 0, chunks_of(content), cipher)
}

/// Applies one write of the reference framing to an in-memory image.
fn apply_write(img: Vec<u8>, off: usize, data: &Vec<u8>) -> (out: Vec<u8>)
    requires
        off + data@.len() <= usize::MAX,
    ensures
        out@ == write_at(img@, off as nat, data@),
{
    let end: usize = off + data.len();
    let total: usize = if img.len() >= end {
        img.len()
    } else {
        end
    };
    let ghost target = write_at(img@, off as nat, data@);
    proof {
        assert(target.len() == total);
    }
    let mut out: Vec<u8> = Vec::new();
    let mut k: usize = 0;
    while k < total
        invariant
            k <= total,
            end == off + data@.len(),
            total == target.len(),
            target == write_at(img@, off as nat, data@),
            out@ == target.take(k as int),
        decreases total - k,
    {
        let b: u8 = if off <= k && k < end {
            data[k - off]
        } else if k < img.len() {
            img[k]
        } else {
            0
        };
        proof {
            assert(target[k as int] == b);
            assert(target.take(k as int).push(target[k as int]) =~= target.take(k + 1 as int));
        }
        out.push(b);
        k = k + 1;
    }
    proof {
        assert(target.take(total as int) =~= target);
    }
    out
}

/// Builds the image that one bulk pass of the reference framing writes, from
/// the content and the per-chunk ciphertexts (taken as arguments: the cipher
/// itself is the embedder's).
pub fn encrypted_image(content: &Vec<u8>, cipher: &Vec<Vec<u8>>) -> (img: Vec<u8>)
    requires
        cipher@.len() == chunks_of(content@).len(),
        forall|t: int|
            0 <= t < cipher@.len() ==> content@.len() + (#[trigger] cipher@[t])@.len()
                <= usize::MAX,
    ensures
        img@ == reference_image(content@, chunk_views(cipher@)),
{
    let ghost plain = chunks_of(content@);
    let ghost cv = chunk_views(cipher@);
    let mut img: Vec<u8> = Vec::new();
    let mut c: usize = 0;
    while c < content.len()
        invariant
            c <= content@.len(),
            img@ == content@.take(c as int),
        decreases content@.len() - c,
    {
        img.push(content[c]);
        proof {
            assert(content@.take(c as int).push(content@[c as int]) =~= content@.take(
                c + 1 as int,
            ));
        }
        c = c + 1;
    }
    proof {
        assert(content@.take(content@.len() as int) =~= content@);
        assert(plain.skip(0) =~= plain);
        assert(cv.skip(0) =~= cv);
        assert(content@.skip(0) =~= content@);
    }
    let mut i: usize = 0;
    let mut off: usize = 0;
    while i < cipher.len()
        invariant
            i <= cipher@.len(),
            cipher@.len() == plain.len(),
            off <= content@.len(),
            plain == chunks_of(content@),
            cv == chunk_views(cipher@),
            plain.skip(i as int) == chunks_of(content@.skip(off as int)),
            forall|t: int|
                0 <= t < cipher@.len() ==> content@.len() + (#[trigger] cipher@[t])@.len()
                    <= usize::MAX,
            reference_image(content@, cv) == reference_image_rec(
                img@,
                off as nat,
                plain.skip(i as int),
                cv.skip(i as int),
            ),
        decreases cipher@.len() - i,
    {
        let ghost rest = content@.skip(off as int);
        proof {
            assert(plain.skip(i as int).len() > 0);
            assert(rest.len() > 0);
        }
        let cl: usize = if content.len() - off > CHUNK_SIZE {
            CHUNK_SIZE
        } else {
            content.len() - off
        };
        proof {
            if rest.len() <= CHUNK_SIZE as int {
                assert(chunks_of(rest) == seq![rest]);
                assert(plain.skip(i as int)[0] == rest);
                assert(rest.len() == cl);
                assert(content@.skip((off + cl) as int).len() == 0);
                assert(chunks_of(rest).skip(1) =~= chunks_of(content@.skip((off + cl) as int)));
            } else {
                assert(cl == CHUNK_SIZE);
                assert(plain.skip(i as int)[0] == rest.take(CHUNK_SIZE as int));
                assert(plain.skip(i as int)[0].len() == cl);
                assert(rest.skip(CHUNK_SIZE as int) =~= content@.skip((off + cl) as int));
                assert(chunks_of(rest).skip(1) =~= chunks_of(content@.skip((off + cl) as int)));
            }
            assert(plain.skip(i as int)[0].len() == cl);
            assert(cv.skip(i as int)[0] == cv[i as int]);
            assert(cv[i as int] == (cipher@[i as int])@);
            assert(plain.skip(i as int).skip(1) =~= plain.skip(i + 1));
            assert(cv.skip(i as int).skip(1) =~= cv.skip(i + 1));
            assert(plain.skip(i + 1) =~= chunks_of(rest).skip(1));
        }
        img = apply_write(img, off, &cipher[i]);
        off = off + cl;
        i = i + 1;
    }
    proof {
        assert(plain.skip(i as int).len() == 0);
    }
    img
}

/// When every chunk authenticates and opens back to its own plaintext,
/// reassembly is plain concatenation.
pub proof fn lemma_reassembled_all_opened(raw: Seq<Seq<u8>>, opened: Seq<Option<Seq<u8>>>)
    requires
        opened.len() == raw.len(),
        forall|i: int| 0 <= i < raw.len() ==> opened[i] == Some(#[trigger] raw[i]),
    ensures
        reassembled(raw, opened) == concat_chunks(raw),
    decreases raw.len(),
{
    if raw.len() > 0 {
        let r2 = raw.skip(1);
        let o2 = opened.skip(1);
        assert forall|i: int| 0 <= i < r2.len() implies o2[i] == Some(#[trigger] r2[i]) by {
            assert(r2[i] == raw[i + 1]);
            assert(o2[i] == opened[i + 1]);
        }
        lemma_reassembled_all_opened(r2, o2);
    }
}

/// Round trip of the length-preserving framing: when every chunk of a content
/// opens back to itself, reassembly restores the content exactly.
pub proof fn lemma_round_trip_length_preserving(content: Seq<u8>, opened: Seq<Option<Seq<u8>>>)
    requires
        opened.len() == chunks_of(content).len(),
        forall|i: int|
            0 <= i < opened.len() ==> opened[i] == Some(#[trigger] chunks_of(content)[i]),
    ensures
        reassembled(chunks_of(content), opened) == content,
{
    lemma_reassembled_all_opened(chunks_of(content), opened);
    lemma_chunks_concat(content);
}

/// The recorded deviation of the reference framing: already for a one-chunk
/// content whose ciphertext is longer than the plaintext — as an
/// authenticating cipher's tag makes it — the written image is the bare
/// ciphertext and is longer than the content, so the image cannot equal the
/// content and the round trip of the reference framing fails.
pub proof fn lemma_reference_framing_deviates(content: Seq<u8>, cipher: Seq<Seq<u8>>)
    requires
        0 < content.len() <= CHUNK_SIZE as int,
        cipher.len() == 1,
        cipher[0].len() > content.len(),
    ensures
        reference_image(content, cipher) == cipher[0],
        reference_image(content, cipher).len() > content.len(),
{
    let plain = chunks_of(content);
    assert(plain == seq![content]);
    let img1 = write_at(content, 0, cipher[0]);
    assert(img1 =~= cipher[0]);
    assert(plain.skip(1).len() == 0);
    assert(plain[0] == content);
    assert(reference_image_rec(img1, content.len(), plain.skip(1), cipher.skip(1)) == img1);
}

} // verus!
