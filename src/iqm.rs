//! A parser for the IQM model format: the header, the text and comment tables, and the mesh
//! table.

use std::ops::Range;
use vstd::prelude::*;
use vstd::utf8::{encode_utf8, valid_utf8};

verus! {

/// The little-endian 32-bit number in the four bytes of `b` at `off`.
pub open spec fn le_u32(b: Seq<u8>, off: int) -> nat {
    (b[off] + 256 * b[off + 1] + 65536 * b[off + 2] + 16777216 * b[off + 3]) as nat
}

/// The magic bytes an IQM file starts with: `INTERQUAKEMODEL` and a zero byte.
pub open spec fn iqm_magic() -> Seq<u8> {
    seq![73u8, 78, 84, 69, 82, 81, 85, 65, 75, 69, 77, 79, 68, 69, 76, 0]
}

/// The size of the header, in bytes.
pub const HEADER_SIZE: usize = 124;

/// A table of `count` entries of `size` bytes each at `offset` ends within `filesize` bytes,
/// with no 32-bit overflow on the way.
pub open spec fn section_fits(count: nat, offset: nat, size: nat, filesize: nat) -> bool {
    &&& count * size <= u32::MAX
    &&& count * size + offset <= u32::MAX
    &&& count * size + offset <= filesize
}

/// Whether `bs` starts with a header that is accepted: the magic, version 2, a file size equal
/// to the length of `bs`, and each table that is read or bounded lying within the file.
pub open spec fn header_valid(bs: Seq<u8>) -> bool {
    &&& bs.len() >= HEADER_SIZE
    &&& bs.subrange(0, 16) == iqm_magic()
    &&& le_u32(bs, 16) == 2
    &&& le_u32(bs, 20) == bs.len()
    &&& section_fits(le_u32(bs, 28), le_u32(bs, 32), 1, bs.len())
    &&& section_fits(le_u32(bs, 36), le_u32(bs, 40), 24, bs.len())
    &&& section_fits(le_u32(bs, 68), le_u32(bs, 72), 1, bs.len())
    &&& section_fits(le_u32(bs, 76), le_u32(bs, 80), 1, bs.len())
    &&& section_fits(le_u32(bs, 84), le_u32(bs, 88), 1, bs.len())
    &&& section_fits(le_u32(bs, 108), le_u32(bs, 112), 1, bs.len())
    &&& section_fits(le_u32(bs, 116), le_u32(bs, 120), 1, bs.len())
}

/// Reads the little-endian 32-bit number at `off`.
fn read_u32(bs: &[u8], off: usize) -> (r: u32)
    requires
        off + 4 <= bs@.len(),
        off + 4 <= usize::MAX,
    ensures
        r == le_u32(bs@, off as int),
{
    let b0 = bs[off] as u32;
    let b1 = bs[off + 1] as u32;
    let b2 = bs[off + 2] as u32;
    let b3 = bs[off + 3] as u32;
    b0 + 256 * b1 + 65536 * b2 + 16777216 * b3
}

/// Reads the two numbers (count, offset) of a table at `off`.
fn read_pair(bs: &[u8], off: usize) -> (r: (u32, u32))
    requires
        off + 8 <= bs@.len(),
        off + 8 <= usize::MAX,
    ensures
        r.0 == le_u32(bs@, off as int),
        r.1 == le_u32(bs@, off + 4),
{
    (read_u32(bs, off), read_u32(bs, off + 4))
}

/// The header of an IQM file: what this parser reads of it.
#[derive(Debug)]
struct Header {
    /// The magic identifier; should be `INTERQUAKEMODEL` and a zero byte.
    magic: Vec<u8>,
    /// The version number; should be 2.
    version: u32,
    /// The size of the file, header included.
    filesize: u32,
    /// The number and offset of the text entries.
    text: (u32, u32),
    /// The number and offset of the meshes.
    meshes: (u32, u32),
    /// The number and offset of the joints.
    joints: (u32, u32),
    /// The number and offset of the poses.
    poses: (u32, u32),
    /// The number and offset of the animations.
    animations: (u32, u32),
    /// The number and offset of the comment entries.
    comments: (u32, u32),
    /// The number of extensions and the offset of the first one.
    extensions: (u32, u32),
}

/// Whether the table (count, offset) of `size`-byte entries ends within `filesize` bytes.
fn check_filesize(size: u32, section: (u32, u32), filesize: u32) -> (r: bool)
    ensures
        r == section_fits(section.0 as nat, section.1 as nat, size as nat, filesize as nat),
{
    let (count, offset) = section;
    match count.checked_mul(size) {
        None => false,
        Some(bytes) => match bytes.checked_add(offset) {
            None => false,
            Some(end) => end <= filesize,
        },
    }
}

impl Header {
    /// The header's fields as read from `bs`.
    spec fn read_from(self, bs: Seq<u8>) -> bool {
        &&& self.magic@ == bs.subrange(0, 16)
        &&& self.version == le_u32(bs, 16)
        &&& self.filesize == le_u32(bs, 20)
        &&& self.text == (le_u32(bs, 28) as u32, le_u32(bs, 32) as u32)
        &&& self.meshes == (le_u32(bs, 36) as u32, le_u32(bs, 40) as u32)
        &&& self.joints == (le_u32(bs, 68) as u32, le_u32(bs, 72) as u32)
        &&& self.poses == (le_u32(bs, 76) as u32, le_u32(bs, 80) as u32)
        &&& self.animations == (le_u32(bs, 84) as u32, le_u32(bs, 88) as u32)
        &&& self.comments == (le_u32(bs, 108) as u32, le_u32(bs, 112) as u32)
        &&& self.extensions == (le_u32(bs, 116) as u32, le_u32(bs, 120) as u32)
    }

    /// Reads the header at the start of `bs`; `None` when `bs` is too short for one, when its
    /// file size is not the length of `bs`, or when it is not valid.
    fn parse_from(bs: &[u8]) -> (r: Option<Header>)
        ensures
            r is Some <==> header_valid(bs@),
            r matches Some(h) ==> h.read_from(bs@),
    {
        if bs.len() < HEADER_SIZE {
            return None;
        }
        let mut magic: Vec<u8> = Vec::new();
        let mut i: usize = 0;
        while i < 16
            invariant
                i <= 16,
                bs@.len() >= HEADER_SIZE,
                magic@ == bs@.subrange(0, i as int),
            decreases 16 - i,
        {
            magic.push(bs[i]);
            i = i + 1;
            assert(magic@ =~= bs@.subrange(0, i as int));
        }
        let header = Header {
            magic,
            version: read_u32(bs, 16),
            filesize: read_u32(bs, 20),
            text: read_pair(bs, 28),
            meshes: read_pair(bs, 36),
            joints: read_pair(bs, 68),
            poses: read_pair(bs, 76),
            animations: read_pair(bs, 84),
            comments: read_pair(bs, 108),
            extensions: read_pair(bs, 116),
        };
        if header.filesize as usize == bs.len() && header.validate() {
            Some(header)
        } else {
            None
        }
    }

    /// Whether the header is reasonable: the magic, version 2, and each table within the
    /// file. That the file size matches the data is checked by the caller.
    fn validate(&self) -> (r: bool)
        ensures
            r == {
                &&& self.magic@ == iqm_magic()
                &&& self.version == 2
                &&& section_fits(self.text.0 as nat, self.text.1 as nat, 1, self.filesize as nat)
                &&& section_fits(self.meshes.0 as nat, self.meshes.1 as nat, 24, self.filesize as nat)
                &&& section_fits(self.joints.0 as nat, self.joints.1 as nat, 1, self.filesize as nat)
                &&& section_fits(self.poses.0 as nat, self.poses.1 as nat, 1, self.filesize as nat)
                &&& section_fits(
                    self.animations.0 as nat,
                    self.animations.1 as nat,
                    1,
                    self.filesize as nat,
                )
                &&& section_fits(
                    self.comments.0 as nat,
                    self.comments.1 as nat,
                    1,
                    self.filesize as nat,
                )
                &&& section_fits(
                    self.extensions.0 as nat,
                    self.extensions.1 as nat,
                    1,
                    self.filesize as nat,
                )
            },
    {
        if !magic_matches(&self.magic) || self.version != 2 {
            return false;
        }
        check_filesize(1, self.text, self.filesize) && check_filesize(24, self.meshes, self.filesize)
            && check_filesize(1, self.joints, self.filesize) && check_filesize(
            1,
            self.poses,
            self.filesize,
        ) && check_filesize(1, self.animations, self.filesize) && check_filesize(
            1,
            self.comments,
            self.filesize,
        ) && check_filesize(1, self.extensions, self.filesize)
    }
}

/// Whether `m` is the IQM magic.
fn magic_matches(m: &Vec<u8>) -> (r: bool)
    ensures
        r == (m@ == iqm_magic()),
{
    let expected: [u8; 16] = [73, 78, 84, 69, 82, 81, 85, 65, 75, 69, 77, 79, 68, 69, 76, 0];
    assert(expected@ =~= iqm_magic());
    if m.len() != 16 {
        return false;
    }
    let mut i: usize = 0;
    while i < 16
        invariant
            i <= 16,
            m@.len() == 16,
            expected@ == iqm_magic(),
            forall|j: int| 0 <= j < i ==> m@[j] == expected@[j],
        decreases 16 - i,
    {
        if m[i] != expected[i] {
            return false;
        }
        i = i + 1;
    }
    assert(m@ =~= iqm_magic());
    true
}

/// Splits `b` at each zero byte, `cur` being the bytes of a piece begun before `b`. `None`
/// when bytes follow the last zero byte.
pub open spec fn nul_pieces(b: Seq<u8>, cur: Seq<u8>) -> Option<Seq<Seq<u8>>>
    decreases b.len(),
{
    if b.len() == 0 {
        if cur.len() == 0 {
            Some(Seq::empty())
        } else {
            None
        }
    } else if b[0] == 0 {
        match nul_pieces(b.drop_first(), Seq::empty()) {
            Some(rest) => Some(seq![cur] + rest),
            None => None,
        }
    } else {
        nul_pieces(b.drop_first(), cur.push(b[0]))
    }
}

/// `done` followed by the pieces of `o`, if any.
pub open spec fn prepend(done: Seq<Seq<u8>>, o: Option<Seq<Seq<u8>>>) -> Option<Seq<Seq<u8>>> {
    match o {
        Some(rest) => Some(done + rest),
        None => None,
    }
}

/// The entries of a text table: zero-terminated UTF-8 strings, the first of which must be
/// empty and is left out. `None` when bytes follow the last zero byte, when an entry is not
/// UTF-8, or when the first entry is not empty.
pub open spec fn texts_spec(b: Seq<u8>) -> Option<Seq<Seq<u8>>> {
    match nul_pieces(b, Seq::empty()) {
        None => None,
        Some(p) => if (forall|i: int| 0 <= i < p.len() ==> valid_utf8(#[trigger] p[i])) && (p.len()
            == 0 || p[0].len() == 0) {
            Some(
                if p.len() == 0 {
                    p
                } else {
                    p.drop_first()
                },
            )
        } else {
            None
        },
    }
}

/// The strings of `r` have, one for one, the bytes in `t`.
pub open spec fn texts_match(r: Seq<String>, t: Seq<Seq<u8>>) -> bool {
    &&& r.len() == t.len()
    &&& forall|k: int| 0 <= k < r.len() ==> encode_utf8(#[trigger] r[k]@) == t[k]
}

/// Relies on std::str::from_utf8: it succeeds exactly when the bytes are valid UTF-8, and the
/// text it gives then consists of those bytes.
#[verifier::external_body]
fn utf8_str(b: &[u8]) -> (r: Option<&str>)
    ensures
        match r {
            Some(s) => valid_utf8(b@) && encode_utf8(s@) == b@,
            None => !valid_utf8(b@),
        },
{
    std::str::from_utf8(b).ok()
}

proof fn lemma_nul_pieces_step(b: Seq<u8>, i: int, cur: Seq<u8>)
    requires
        0 <= i < b.len(),
    ensures
        b[i] != 0 ==> nul_pieces(b.skip(i), cur) == nul_pieces(b.skip(i + 1), cur.push(b[i])),
        b[i] == 0 ==> nul_pieces(b.skip(i), cur) == prepend(
            seq![cur],
            nul_pieces(b.skip(i + 1), Seq::empty()),
        ),
{
    assert(b.skip(i).drop_first() =~= b.skip(i + 1));
    assert(b.skip(i)[0] == b[i]);
}

/// Reads a text table: see `texts_spec`.
fn parse_texts(bs: &[u8]) -> (r: Option<Vec<String>>)
    ensures
        match r {
            Some(v) => texts_spec(bs@) matches Some(t) && texts_match(v@, t),
            None => texts_spec(bs@) is None,
        },
{
    let n = bs.len();
    let mut texts: Vec<String> = Vec::new();
    let ghost mut done: Seq<Seq<u8>> = Seq::empty();
    let mut first_len: usize = 0;
    let mut start: usize = 0;
    let mut i: usize = 0;
    assert(bs@.skip(0) =~= bs@);
    assert(bs@.subrange(0, 0) =~= Seq::<u8>::empty());
    while i < n
        invariant
            n == bs@.len(),
            start <= i <= n,
            nul_pieces(bs@, Seq::empty()) == prepend(
                done,
                nul_pieces(bs@.skip(i as int), bs@.subrange(start as int, i as int)),
            ),
            texts_match(texts@, done),
            forall|k: int| 0 <= k < done.len() ==> valid_utf8(#[trigger] done[k]),
            done.len() > 0 ==> done[0].len() == first_len,
        decreases n - i,
    {
        proof {
            lemma_nul_pieces_step(bs@, i as int, bs@.subrange(start as int, i as int));
        }
        if bs[i] == 0 {
            let piece = &bs[start..i];
            match utf8_str(piece) {
                None => {
                    proof {
                        let o = nul_pieces(bs@.skip(i + 1), Seq::empty());
                        if let Some(rest) = o {
                            let p = done + seq![piece@] + rest;
                            assert(p[done.len() as int] == piece@);
                        }
                        assert(prepend(done, prepend(seq![piece@], o)) == prepend(
                            done + seq![piece@],
                            o,
                        )) by {
                            if let Some(rest) = o {
                                assert(done + (seq![piece@] + rest) =~= done + seq![piece@] + rest);
                            }
                        }
                    }
                    return None;
                },
                Some(s) => {
                    if texts.len() == 0 {
                        first_len = i - start;
                    }
                    let ghost before = texts@;
                    texts.push(s.to_owned());
                    proof {
                        let o = nul_pieces(bs@.skip(i + 1), Seq::empty());
                        assert(prepend(done, prepend(seq![piece@], o)) == prepend(
                            done + seq![piece@],
                            o,
                        )) by {
                            if let Some(rest) = o {
                                assert(done + (seq![piece@] + rest) =~= done + seq![piece@] + rest);
                            }
                        }
                        done = done + seq![piece@];
                        assert(bs@.subrange(i + 1, i + 1) =~= Seq::<u8>::empty());
                        assert(texts_match(texts@, done)) by {
                            assert forall|k: int| 0 <= k < texts@.len() implies encode_utf8(
                                #[trigger] texts@[k]@,
                            ) == done[k] by {
                                if k < texts@.len() - 1 {
                                    assert(texts@[k] == before[k]);
                                }
                            }
                        }
                    }
                    start = i + 1;
                },
            }
        } else {
            proof {
                assert(bs@.subrange(start as int, i as int).push(bs@[i as int]) =~= bs@.subrange(
                    start as int,
                    i + 1,
                ));
            }
        }
        i = i + 1;
    }
    if start < n {
        return None;
    }
    assert(bs@.skip(n as int) =~= Seq::<u8>::empty());
    assert(bs@.subrange(start as int, n as int) =~= Seq::<u8>::empty());
    assert(nul_pieces(bs@, Seq::empty()) == Some(done)) by {
        assert(done + Seq::<Seq<u8>>::empty() =~= done);
    }
    if texts.len() > 0 {
        if first_len != 0 {
            return None;
        }
        texts.remove(0);
        assert(texts_match(texts@, done.drop_first())) by {
            assert forall|k: int| 0 <= k < texts@.len() implies encode_utf8(
                #[trigger] texts@[k]@,
            ) == done.drop_first()[k] by {}
        }
    }
    Some(texts)
}

/// The data stored within an IQM file.
#[derive(Debug)]
pub struct IQM {
    /// Text entries.
    pub text: Vec<String>,
    /// Mesh entries.
    pub meshes: Vec<Mesh>,
    /// Comment entries.
    pub comments: Vec<String>,
}

/// A single mesh.
#[derive(Debug)]
pub struct Mesh {
    /// The name of the mesh, as an index into the text entries.
    pub name: Option<usize>,
    /// The material to be used.
    pub material: u32,
    /// The range of vertices of this mesh in the vertex entries.
    pub vertices: Range<usize>,
    /// The range of triangles of this mesh in the triangle entries.
    pub triangles: Range<usize>,
}

/// The range of `count` items from `first`.
pub open spec fn range_spec(first: nat, count: nat) -> Range<usize> {
    Range { start: first as usize, end: (first + count) as usize }
}

/// The mesh whose 24-byte entry starts at `off` in `b`: name (stored plus one, zero for none),
/// material, first vertex, vertex count, first triangle, triangle count.
pub open spec fn mesh_spec(b: Seq<u8>, off: int) -> Mesh {
    Mesh {
        name: if le_u32(b, off) == 0 {
            None
        } else {
            Some((le_u32(b, off) - 1) as usize)
        },
        material: le_u32(b, off + 4) as u32,
        vertices: range_spec(le_u32(b, off + 8), le_u32(b, off + 12)),
        triangles: range_spec(le_u32(b, off + 16), le_u32(b, off + 20)),
    }
}

/// Whether the vertex and triangle ranges of entry `i` (at byte `24 i`) have ends that fit in
/// a `usize` (always so where `usize` has 64 bits).
pub open spec fn mesh_fits(b: Seq<u8>, i: int) -> bool {
    &&& le_u32(b, 24 * i + 8) + le_u32(b, 24 * i + 12) <= usize::MAX
    &&& le_u32(b, 24 * i + 16) + le_u32(b, 24 * i + 20) <= usize::MAX
}

/// The entries of a mesh table; `None` unless it is a whole number of 24-byte entries whose
/// ranges fit in a `usize`.
pub open spec fn meshes_spec(b: Seq<u8>) -> Option<Seq<Mesh>> {
    if b.len() % 24 != 0 || exists|i: int| 0 <= i < b.len() / 24 && !#[trigger] mesh_fits(b, i) {
        None
    } else {
        Some(Seq::new(b.len() / 24, |i: int| mesh_spec(b, 24 * i)))
    }
}

/// Reads a mesh table: see `meshes_spec`.
fn parse_meshes(bs: &[u8]) -> (r: Option<Vec<Mesh>>)
    ensures
        match r {
            Some(v) => meshes_spec(bs@) == Some(v@),
            None => meshes_spec(bs@) is None,
        },
{
    if bs.len() % 24 != 0 {
        return None;
    }
    let n = bs.len();
    let count = n / 24;
    let mut meshes: Vec<Mesh> = Vec::new();
    let mut i: usize = 0;
    while i < count
        invariant
            n == bs@.len(),
            count == bs@.len() / 24,
            bs@.len() % 24 == 0,
            i <= count,
            meshes@ == Seq::new(i as nat, |j: int| mesh_spec(bs@, 24 * j)),
            forall|j: int| 0 <= j < i ==> #[trigger] mesh_fits(bs@, j),
        decreases count - i,
    {
        assert(24 * i + 24 <= n) by (nonlinear_arith)
            requires
                i < count,
                count == n / 24,
        ;
        let off = 24 * i;
        let name = read_u32(bs, off);
        let first_vertex = read_u32(bs, off + 8) as usize;
        let first_triangle = read_u32(bs, off + 16) as usize;
        let vertex_count = read_u32(bs, off + 12) as usize;
        let triangle_count = read_u32(bs, off + 20) as usize;
        if first_vertex > usize::MAX - vertex_count || first_triangle > usize::MAX
            - triangle_count {
            assert(!mesh_fits(bs@, i as int));
            return None;
        }
        let mesh = Mesh {
            name: if name == 0 {
                None
            } else {
                Some(name as usize - 1)
            },
            material: read_u32(bs, off + 4),
            vertices: first_vertex..first_vertex + vertex_count,
            triangles: first_triangle..first_triangle + triangle_count,
        };
        meshes.push(mesh);
        i = i + 1;
        assert(meshes@ =~= Seq::new(i as nat, |j: int| mesh_spec(bs@, 24 * j)));
    }
    Some(meshes)
}

/// The bytes of the table whose (count, offset) pair stands at `at` in the header, for
/// entries of `size` bytes.
pub open spec fn table_bytes(bs: Seq<u8>, at: int, size: nat) -> Seq<u8> {
    bs.subrange(le_u32(bs, at + 4) as int, (le_u32(bs, at + 4) + le_u32(bs, at) * size) as int)
}

impl IQM {
    /// Reads the data from the contents of an IQM file. `None` when the header is missing or
    /// not valid (see `header_valid`), or when the text table, the mesh table or the comment
    /// table cannot be read.
    pub fn parse_from(bs: &[u8]) -> (r: Option<IQM>)
        ensures
            r is Some <==> {
                &&& header_valid(bs@)
                &&& texts_spec(table_bytes(bs@, 28, 1)) is Some
                &&& meshes_spec(table_bytes(bs@, 36, 24)) is Some
                &&& texts_spec(table_bytes(bs@, 108, 1)) is Some
            },
            r matches Some(iqm) ==> {
                &&& texts_match(iqm.text@, texts_spec(table_bytes(bs@, 28, 1)).unwrap())
                &&& Some(iqm.meshes@) == meshes_spec(table_bytes(bs@, 36, 24))
                &&& texts_match(iqm.comments@, texts_spec(table_bytes(bs@, 108, 1)).unwrap())
            },
    {
        let header = match Header::parse_from(bs) {
            Some(h) => h,
            None => return None,
        };
        let (text_count, text_offset) = header.text;
        let (mesh_count, mesh_offset) = header.meshes;
        let (comment_count, comment_offset) = header.comments;
        let text_bytes = &bs[text_offset as usize..text_offset as usize + text_count as usize];
        let mesh_bytes = &bs[mesh_offset as usize..mesh_offset as usize + 24 * mesh_count as usize];
        let comment_bytes = &bs[comment_offset as usize..comment_offset as usize
            + comment_count as usize];
        let text = match parse_texts(text_bytes) {
            Some(t) => t,
            None => return None,
        };
        let meshes = match parse_meshes(mesh_bytes) {
            Some(m) => m,
            None => return None,
        };
        let comments = match parse_texts(comment_bytes) {
            Some(c) => c,
            None => return None,
        };
        Some(IQM { text, meshes, comments })
    }
}

} // verus!
