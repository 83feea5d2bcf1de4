//! The ICO container: several pictures of one icon in one file.
//!
//! The file starts with a header of six bytes, goes on with a directory of
//! sixteen bytes for each picture, and ends with the pictures' data, one
//! after the other. Numbers are written low byte first.

use vstd::prelude::*;

verus! {

/// One picture of an icon: the length of its side in pixels and its data,
/// encoded as PNG.
pub struct Picture {
    pub size: u32,
    pub data: Vec<u8>,
}

/// The two bytes of a number below 65536.
pub open spec fn le16(n: int) -> Seq<u8> {
    seq![(n % 256) as u8, (n / 256 % 256) as u8]
}

/// The four bytes of a number below 4294967296.
pub open spec fn le32(n: int) -> Seq<u8> {
    seq![
        (n % 256) as u8,
        (n / 256 % 256) as u8,
        (n / 65536 % 256) as u8,
        (n / 16777216 % 256) as u8,
    ]
}

/// The byte that tells the side of a picture: the side itself, and zero for
/// a side of 256 pixels and more.
pub open spec fn side_byte(size: u32) -> u8 {
    if size < 256 {
        size as u8
    } else {
        0
    }
}

/// The length of the data of the first `upto` pictures together.
pub open spec fn data_len(pictures: Seq<Picture>, upto: int) -> int
    decreases upto,
{
    if upto <= 0 {
        0
    } else {
        data_len(pictures, upto - 1) + pictures[upto - 1].data@.len()
    }
}

/// The place in the file where the data of picture `i` starts.
pub open spec fn data_start(pictures: Seq<Picture>, i: int) -> int {
    6 + 16 * pictures.len() + data_len(pictures, i)
}

/// The directory entry of picture `i`: its side twice, no palette, a
/// reserved zero, one plane, 32 bits for a pixel, then the length of its
/// data and the place where the data starts.
pub open spec fn entry(pictures: Seq<Picture>, i: int) -> Seq<u8> {
    seq![side_byte(pictures[i].size), side_byte(pictures[i].size), 0u8, 0u8, 1u8, 0u8, 32u8, 0u8]
        + le32(pictures[i].data@.len() as int) + le32(data_start(pictures, i))
}

/// The directory entries of the first `upto` pictures.
pub open spec fn directory(pictures: Seq<Picture>, upto: int) -> Seq<u8>
    decreases upto,
{
    if upto <= 0 {
        Seq::empty()
    } else {
        directory(pictures, upto - 1) + entry(pictures, upto - 1)
    }
}

/// The data of the first `upto` pictures, one after the other.
pub open spec fn payload(pictures: Seq<Picture>, upto: int) -> Seq<u8>
    decreases upto,
{
    if upto <= 0 {
        Seq::empty()
    } else {
        payload(pictures, upto - 1) + pictures[upto - 1].data@
    }
}

/// The ICO file that holds the pictures.
pub open spec fn ico_bytes(pictures: Seq<Picture>) -> Seq<u8> {
    seq![0u8, 0u8, 1u8, 0u8] + le16(pictures.len() as int) + directory(
        pictures,
        pictures.len() as int,
    ) + payload(pictures, pictures.len() as int)
}

/// The pictures can be held by one ICO file: their number fits two bytes
/// and every place in the file fits four.
pub open spec fn encodable(pictures: Seq<Picture>) -> bool {
    &&& pictures.len() <= u16::MAX
    &&& data_start(pictures, pictures.len() as int) <= u32::MAX
}

proof fn lemma_data_len_grows(pictures: Seq<Picture>, i: int, j: int)
    requires
        0 <= i <= j,
    ensures
        0 <= data_len(pictures, i) <= data_len(pictures, j),
    decreases j,
{
    if i < j {
        lemma_data_len_grows(pictures, i, j - 1);
    } else if j > 0 {
        lemma_data_len_grows(pictures, 0, j - 1);
    }
}

/// Whether the pictures can be held by one ICO file.
pub fn fits(pictures: &Vec<Picture>) -> (ok: bool)
    ensures
        ok == encodable(pictures@),
{
    if pictures.len() > 65535 {
        return false;
    }
    let mut end: u64 = 6 + 16 * (pictures.len() as u64);
    let mut i: usize = 0;
    while i < pictures.len()
        invariant
            i <= pictures@.len() <= 65535,
            end == data_start(pictures@, i as int),
            end <= u32::MAX,
        decreases pictures@.len() - i,
    {
        let len = pictures[i].data.len();
        proof {
            lemma_data_len_grows(pictures@, i + 1, pictures@.len() as int);
        }
        if len as u64 > 4294967295 - end {
            return false;
        }
        end = end + len as u64;
        i += 1;
    }
    true
}

fn push_le16(out: &mut Vec<u8>, n: u16)
    ensures
        final(out)@ == old(out)@ + le16(n as int),
{
    out.push((n % 256) as u8);
    out.push((n / 256) as u8);
    proof {
        assert(final(out)@ =~= old(out)@ + le16(n as int));
    }
}

fn push_le32(out: &mut Vec<u8>, n: u32)
    ensures
        final(out)@ == old(out)@ + le32(n as int),
{
    out.push((n % 256) as u8);
    out.push((n / 256 % 256) as u8);
    out.push((n / 65536 % 256) as u8);
    out.push((n / 16777216) as u8);
    proof {
        assert(final(out)@ =~= old(out)@ + le32(n as int));
    }
}

/// Writes the ICO file that holds the pictures, if one file can hold them.
pub fn encode(pictures: &Vec<Picture>) -> (file: Option<Vec<u8>>)
    ensures
        match file {
            Some(bytes) => encodable(pictures@) && bytes@ == ico_bytes(pictures@),
            None => !encodable(pictures@),
        },
{
    if !fits(pictures) {
        return None;
    }
    let count = pictures.len();
    let mut out: Vec<u8> = Vec::new();
    out.push(0);
    out.push(0);
    out.push(1);
    out.push(0);
    push_le16(&mut out, count as u16);
    let ghost head = seq![0u8, 0u8, 1u8, 0u8] + le16(count as int);
    let mut start: u32 = (6 + 16 * count) as u32;
    let mut i: usize = 0;
    proof {
        assert(out@ =~= head + directory(pictures@, 0));
    }
    while i < count
        invariant
            i <= count == pictures@.len(),
            encodable(pictures@),
            start == data_start(pictures@, i as int),
            out@ == head + directory(pictures@, i as int),
        decreases count - i,
    {
        let picture = &pictures[i];
        let side: u8 = if picture.size < 256 {
            picture.size as u8
        } else {
            0
        };
        let ghost before = out@;
        proof {
            lemma_data_len_grows(pictures@, i + 1, count as int);
        }
        out.push(side);
        out.push(side);
        out.push(0);
        out.push(0);
        out.push(1);
        out.push(0);
        out.push(32);
        out.push(0);
        push_le32(&mut out, picture.data.len() as u32);
        push_le32(&mut out, start);
        proof {
            assert(out@ =~= before + entry(pictures@, i as int));
            assert(out@ =~= head + directory(pictures@, i + 1));
        }
        start = start + picture.data.len() as u32;
        i += 1;
    }
    let ghost listed = out@;
    let mut k: usize = 0;
    proof {
        assert(out@ =~= listed + payload(pictures@, 0));
    }
    while k < count
        invariant
            k <= count == pictures@.len(),
            out@ == listed + payload(pictures@, k as int),
        decreases count - k,
    {
        let data = &pictures[k].data;
        let ghost before = out@;
        let mut j: usize = 0;
        while j < data.len()
            invariant
                j <= data@.len(),
                out@ == before + data@.subrange(0, j as int),
            decreases data@.len() - j,
        {
            out.push(data[j]);
            proof {
                assert(out@ =~= before + data@.subrange(0, j + 1));
            }
            j += 1;
        }
        proof {
            assert(data@.subrange(0, data@.len() as int) =~= data@);
            assert(out@ =~= listed + payload(pictures@, k + 1));
        }
        k += 1;
    }
    Some(out)
}

} // verus!
