//! Wavefront OBJ reading: records, faces, corner merging and fan triangulation.
//!
//! The reader keeps the number tokens of `v` / `vn` records as text (each one
//! checked against the syntax `f32::from_str` accepts); turning them into
//! coordinates, and recomputing normals, belongs to the mesh code that owns the
//! floating-point data.
use std::collections::HashMap;
use vstd::prelude::*;

use crate::text::{
    collect_chars, find_char, is_float_literal, is_float_span, lemma_prefix_len_until_bound,
    parse_i64, parse_i64_span, prefix_len_until, span_view, split_whitespace, tokens,
};

verus! {

broadcast use vstd::std_specs::hash::group_hash_axioms;

// ----- spec model -------------------------------------------------------------

/// What a successful read describes.
pub struct ObjModel {
    /// `v` records, each the three number tokens.
    pub positions: Seq<Seq<Seq<char>>>,
    /// `vn` records, each the three number tokens.
    pub normals: Seq<Seq<Seq<char>>>,
    /// Output vertices: (position record, normal record if the face gave one).
    pub vertices: Seq<(int, Option<int>)>,
    /// Triangle list into `vertices`.
    pub indices: Seq<int>,
    /// Every face corner named a normal.
    pub all_have_normals: bool,
}

/// Why a read failed.
pub enum ObjFault {
    BadNumber { line: int, token: Seq<char> },
    IndexOutOfRange { line: int, index: int },
    DegenerateFace { line: int },
    Empty,
}

pub open spec fn empty_model() -> ObjModel {
    ObjModel {
        positions: seq![],
        normals: seq![],
        vertices: seq![],
        indices: seq![],
        all_have_normals: true,
    }
}

/// Token `i` of a line, or the empty token when the line is shorter.
pub open spec fn token_or_empty(toks: Seq<Seq<char>>, i: int) -> Seq<char> {
    if 0 <= i < toks.len() {
        toks[i]
    } else {
        Seq::empty()
    }
}

/// A 1-based (or negative, counted from the end) index into `len` records, made 0-based.
pub open spec fn resolve_spec(tok: Seq<char>, len: int, line: int) -> Result<int, ObjFault> {
    match parse_i64(tok) {
        None => Err(ObjFault::BadNumber { line, token: tok }),
        Some(raw) => {
            let idx = if raw < 0 {
                len + raw
            } else {
                raw - 1
            };
            if 0 <= idx < len {
                Ok(idx)
            } else {
                Err(ObjFault::IndexOutOfRange { line, index: idx })
            }
        },
    }
}

/// The part of a face token before its first `/`.
pub open spec fn position_field(tok: Seq<char>) -> Seq<char> {
    tok.take(prefix_len_until(tok, '/') as int)
}

/// The third `/`-separated part of a face token, if it has one.
pub open spec fn normal_field(tok: Seq<char>) -> Option<Seq<char>> {
    let n0 = prefix_len_until(tok, '/') as int;
    if n0 < tok.len() {
        let r1 = tok.skip(n0 + 1);
        let n1 = prefix_len_until(r1, '/') as int;
        if n1 < r1.len() {
            let r2 = r1.skip(n1 + 1);
            Some(r2.take(prefix_len_until(r2, '/') as int))
        } else {
            None
        }
    } else {
        None
    }
}

/// One face corner: resolve its indices and find or add its output vertex.
pub open spec fn add_corner(m: ObjModel, tok: Seq<char>, line: int) -> Result<
    (ObjModel, int),
    ObjFault,
> {
    match resolve_spec(position_field(tok), m.positions.len() as int, line) {
        Err(e) => Err(e),
        Ok(pi) => {
            let nr: Result<Option<int>, ObjFault> = match normal_field(tok) {
                Some(f) => if f.len() > 0 {
                    match resolve_spec(f, m.normals.len() as int, line) {
                        Err(e) => Err(e),
                        Ok(ni) => Ok(Some(ni)),
                    }
                } else {
                    Ok(None)
                },
                None => Ok(None),
            };
            match nr {
                Err(e) => Err(e),
                Ok(ni) => {
                    let m1 = if ni is None {
                        ObjModel { all_have_normals: false, ..m }
                    } else {
                        m
                    };
                    let key = (pi, ni);
                    if m1.vertices.contains(key) {
                        Ok((m1, m1.vertices.index_of(key)))
                    } else {
                        Ok((ObjModel { vertices: m1.vertices.push(key), ..m1 }, m1.vertices.len() as int))
                    }
                },
            }
        },
    }
}

/// `c` does not occur in `s`.
pub open spec fn lacks(s: Seq<char>, c: char) -> bool {
    forall|k: int| 0 <= k < s.len() ==> s[k] != c
}

proof fn lemma_fields_of_corner(p: Seq<char>, t: Seq<char>, n: Seq<char>)
    requires
        lacks(p, '/'),
        lacks(t, '/'),
        lacks(n, '/'),
    ensures
        position_field(p + seq!['/'] + t + seq!['/'] + n) == p,
        normal_field(p + seq!['/'] + t + seq!['/'] + n) == Some(n),
{
    let tok = p + seq!['/'] + t + seq!['/'] + n;
    assert forall|k: int| 0 <= k < p.len() implies tok[k] != '/' by {
        assert(tok[k] == p[k]);
    }
    assert(tok[p.len() as int] == '/');
    crate::text::lemma_prefix_len_until_is(tok, '/', p.len() as int);
    assert(tok.take(p.len() as int) =~= p);
    let r1 = tok.skip(p.len() as int + 1);
    assert(r1 =~= t + seq!['/'] + n);
    assert forall|k: int| 0 <= k < t.len() implies r1[k] != '/' by {
        assert(r1[k] == t[k]);
    }
    assert(r1[t.len() as int] == '/');
    crate::text::lemma_prefix_len_until_is(r1, '/', t.len() as int);
    let r2 = r1.skip(t.len() as int + 1);
    assert(r2 =~= n);
    crate::text::lemma_prefix_len_until_is(r2, '/', n.len() as int);
    assert(r2.take(n.len() as int) =~= n);
}

/// A face corner `p/t/n` whose normal field `n` is not empty takes its position
/// record from `p` and its normal record from `n`, whatever the texture field `t`
/// says (the same corner written `p//n` reads the same): it succeeds exactly when
/// both indices resolve, its output vertex is that (position, normal) pair, and
/// it leaves the "every corner named a normal" flag as it was.
pub proof fn lemma_corner_takes_normal_field(
    m: ObjModel,
    p: Seq<char>,
    t: Seq<char>,
    n: Seq<char>,
    line: int,
)
    requires
        lacks(p, '/'),
        lacks(t, '/'),
        lacks(n, '/'),
        n.len() > 0,
    ensures
        ({
            let tok = p + seq!['/'] + t + seq!['/'] + n;
            let pr = resolve_spec(p, m.positions.len() as int, line);
            let nr = resolve_spec(n, m.normals.len() as int, line);
            &&& add_corner(m, tok, line) is Ok <==> (pr is Ok && nr is Ok)
            &&& add_corner(m, tok, line) matches Ok((m2, idx)) ==> {
                &&& 0 <= idx < m2.vertices.len()
                &&& m2.vertices[idx] == (pr->Ok_0, Some(nr->Ok_0))
                &&& m2.all_have_normals == m.all_have_normals
            }
            &&& add_corner(m, tok, line) == add_corner(m, p + seq!['/', '/'] + n, line)
        }),
{
    lemma_fields_of_corner(p, t, n);
    lemma_fields_of_corner(p, Seq::empty(), n);
    assert(p + seq!['/'] + Seq::<char>::empty() + seq!['/'] + n =~= p + seq!['/', '/'] + n);
    let tok = p + seq!['/'] + t + seq!['/'] + n;
    if let Ok((m2, idx)) = add_corner(m, tok, line) {
        let pi = resolve_spec(p, m.positions.len() as int, line)->Ok_0;
        let ni = resolve_spec(n, m.normals.len() as int, line)->Ok_0;
        let key = (pi, Some(ni));
        if m.vertices.contains(key) {
            assert(m.vertices[m.vertices.index_of(key)] == key);
        } else {
            assert(m2.vertices[m.vertices.len() as int] == key);
        }
    }
}

/// The corners of a face, left to right.
pub open spec fn face_corners(m: ObjModel, toks: Seq<Seq<char>>, corners: Seq<int>, line: int) -> Result<
    (ObjModel, Seq<int>),
    ObjFault,
>
    decreases toks.len(),
{
    if toks.len() == 0 {
        Ok((m, corners))
    } else {
        match add_corner(m, toks[0], line) {
            Err(e) => Err(e),
            Ok((m2, idx)) => face_corners(m2, toks.drop_first(), corners.push(idx), line),
        }
    }
}

/// Fan triangles `(c[0], c[k], c[k + 1])` for `k` from `from` on.
pub open spec fn fan_from(c: Seq<int>, k: int) -> Seq<int>
    decreases c.len() - k,
{
    if 1 <= k && k + 1 < c.len() {
        seq![c[0], c[k], c[k + 1]] + fan_from(c, k + 1)
    } else {
        seq![]
    }
}

/// Fan triangulation of a polygon.
pub open spec fn fan(c: Seq<int>) -> Seq<int> {
    fan_from(c, 1)
}

/// The `i`-th index of the fan from corner `k` on: every triangle is the first corner
/// followed by two consecutive corners.
pub open spec fn fan_index(c: Seq<int>, k: int, i: int) -> int {
    if i % 3 == 0 {
        c[0]
    } else if i % 3 == 1 {
        c[k + i / 3]
    } else {
        c[k + i / 3 + 1]
    }
}

proof fn lemma_fan_from(c: Seq<int>, k: int)
    requires
        1 <= k,
    ensures
        fan_from(c, k).len() == (if k + 1 < c.len() { 3 * (c.len() - 1 - k) } else { 0 }),
        forall|i: int| 0 <= i < fan_from(c, k).len() ==> #[trigger] fan_from(c, k)[i] == fan_index(c, k, i),
    decreases c.len() - k,
{
    if k + 1 < c.len() {
        lemma_fan_from(c, k + 1);
        let rest = fan_from(c, k + 1);
        assert forall|i: int| 0 <= i < fan_from(c, k).len() implies #[trigger] fan_from(c, k)[i]
            == fan_index(c, k, i) by {
            if i >= 3 {
                assert(fan_from(c, k)[i] == rest[i - 3]);
                assert(rest[i - 3] == fan_index(c, k + 1, i - 3));
                assert((i - 3) / 3 == i / 3 - 1);
                assert((i - 3) % 3 == i % 3);
            }
        }
    }
}

/// Fan triangulation of a face with `n >= 3` corners gives `n - 2` triangles; the
/// `t`-th is the first corner with corners `t + 1` and `t + 2`.
pub proof fn lemma_fan_triangles(c: Seq<int>)
    requires
        c.len() >= 3,
    ensures
        fan(c).len() == 3 * (c.len() - 2),
        forall|t: int|
            0 <= t < c.len() - 2 ==> #[trigger] fan(c)[3 * t] == c[0] && fan(c)[3 * t + 1] == c[t
                + 1] && fan(c)[3 * t + 2] == c[t + 2],
{
    lemma_fan_from(c, 1);
    assert forall|t: int| 0 <= t < c.len() - 2 implies #[trigger] fan(c)[3 * t] == c[0] && fan(
        c,
    )[3 * t + 1] == c[t + 1] && fan(c)[3 * t + 2] == c[t + 2] by {
        assert(fan(c)[3 * t] == fan_index(c, 1, 3 * t));
        assert(fan(c)[3 * t + 1] == fan_index(c, 1, 3 * t + 1));
        assert(fan(c)[3 * t + 2] == fan_index(c, 1, 3 * t + 2));
        assert((3 * t) / 3 == t && (3 * t) % 3 == 0);
        assert((3 * t + 1) / 3 == t && (3 * t + 1) % 3 == 1);
        assert((3 * t + 2) / 3 == t && (3 * t + 2) % 3 == 2);
    }
}

/// The three number tokens of a `v` / `vn` line, checked in order.
pub open spec fn number_record(toks: Seq<Seq<char>>, line: int) -> Result<Seq<Seq<char>>, ObjFault> {
    let x = token_or_empty(toks, 1);
    let y = token_or_empty(toks, 2);
    let z = token_or_empty(toks, 3);
    if !is_float_literal(x) {
        Err(ObjFault::BadNumber { line, token: x })
    } else if !is_float_literal(y) {
        Err(ObjFault::BadNumber { line, token: y })
    } else if !is_float_literal(z) {
        Err(ObjFault::BadNumber { line, token: z })
    } else {
        Ok(seq![x, y, z])
    }
}

/// One line, given its tokens (comment removed).
pub open spec fn read_line(m: ObjModel, toks: Seq<Seq<char>>, line: int) -> Result<ObjModel, ObjFault> {
    if toks.len() == 0 {
        Ok(m)
    } else if toks[0] == seq!['v'] {
        match number_record(toks, line) {
            Err(e) => Err(e),
            Ok(r) => Ok(ObjModel { positions: m.positions.push(r), ..m }),
        }
    } else if toks[0] == seq!['v', 'n'] {
        match number_record(toks, line) {
            Err(e) => Err(e),
            Ok(r) => Ok(ObjModel { normals: m.normals.push(r), ..m }),
        }
    } else if toks[0] == seq!['f'] {
        match face_corners(m, toks.drop_first(), seq![], line) {
            Err(e) => Err(e),
            Ok((m2, c)) => if c.len() < 3 {
                Err(ObjFault::DegenerateFace { line })
            } else {
                Ok(ObjModel { indices: m2.indices + fan(c), ..m2 })
            },
        }
    } else {
        Ok(m)
    }
}

/// The tokens of a line: whitespace-separated, up to the first `#`.
pub open spec fn line_tokens(text: Seq<char>) -> Seq<Seq<char>> {
    tokens(text.take(prefix_len_until(text, '#') as int))
}

/// Lines of `rest` (split at `\n`), the first numbered `line`.
pub open spec fn read_lines(rest: Seq<char>, line: int, m: ObjModel) -> Result<ObjModel, ObjFault>
    decreases rest.len(),
{
    let n = prefix_len_until(rest, '\n') as int;
    match read_line(m, line_tokens(rest.take(n)), line) {
        Err(e) => Err(e),
        Ok(m2) => if n < rest.len() {
            read_lines(rest.skip(n + 1), line + 1, m2)
        } else {
            Ok(m2)
        },
    }
}

/// The meaning of an OBJ text.
pub open spec fn obj_parse(text: Seq<char>) -> Result<ObjModel, ObjFault> {
    match read_lines(text, 1, empty_model()) {
        Err(e) => Err(e),
        Ok(m) => if m.indices.len() == 0 {
            Err(ObjFault::Empty)
        } else {
            Ok(m)
        },
    }
}

/// Every reference points at an existing record, no output vertex repeats,
/// indices come in whole triangles and records hold three tokens.
pub open spec fn model_wf(m: ObjModel) -> bool {
    &&& forall|i: int|
        0 <= i < m.vertices.len() ==> 0 <= (#[trigger] m.vertices[i]).0 < m.positions.len()
    &&& forall|i: int|
        0 <= i < m.vertices.len() ==> ((#[trigger] m.vertices[i]).1 matches Some(n) ==> 0 <= n
            < m.normals.len())
    &&& forall|k: int| 0 <= k < m.indices.len() ==> 0 <= #[trigger] m.indices[k] < m.vertices.len()
    &&& m.vertices.no_duplicates()
    &&& m.indices.len() % 3 == 0
    &&& m.all_have_normals ==> forall|i: int|
        0 <= i < m.vertices.len() ==> (#[trigger] m.vertices[i]).1 is Some
    &&& forall|i: int| 0 <= i < m.positions.len() ==> (#[trigger] m.positions[i]).len() == 3
    &&& forall|i: int| 0 <= i < m.normals.len() ==> (#[trigger] m.normals[i]).len() == 3
}

// ----- exec types ---------------------------------------------------------------

/// The three number tokens of one `v` or `vn` line.
#[derive(Debug)]
pub struct ObjTriple {
    pub x: String,
    pub y: String,
    pub z: String,
}

impl View for ObjTriple {
    type V = Seq<Seq<char>>;

    open spec fn view(&self) -> Seq<Seq<char>> {
        seq![self.x@, self.y@, self.z@]
    }
}

/// An output vertex: a position record and, when the face named one, a normal record.
#[derive(Debug, Clone, Copy, PartialEq, Eq)]
pub struct ObjVertex {
    pub position: u32,
    pub normal: Option<u32>,
}

impl ObjVertex {
    pub open spec fn model(self) -> (int, Option<int>) {
        (
            self.position as int,
            match self.normal {
                Some(n) => Some(n as int),
                None => None,
            },
        )
    }
}

/// A read OBJ file: records, merged output vertices and a triangle list.
#[derive(Debug)]
pub struct ObjMesh {
    /// `v` records.
    pub positions: Vec<ObjTriple>,
    /// `vn` records.
    pub normals: Vec<ObjTriple>,
    /// Output vertices; equal (position, normal) corners share one.
    pub vertices: Vec<ObjVertex>,
    /// Triangle list into `vertices`.
    pub indices: Vec<u32>,
    /// Whether every face corner named a normal (otherwise normals are to be recomputed).
    pub all_have_normals: bool,
}

impl View for ObjMesh {
    type V = ObjModel;

    open spec fn view(&self) -> ObjModel {
        ObjModel {
            positions: self.positions@.map_values(|t: ObjTriple| t@),
            normals: self.normals@.map_values(|t: ObjTriple| t@),
            vertices: self.vertices@.map_values(|v: ObjVertex| v.model()),
            indices: self.indices@.map_values(|i: u32| i as int),
            all_have_normals: self.all_have_normals,
        }
    }
}

/// Errors from reading an OBJ file.
#[derive(Debug)]
pub enum ObjError {
    /// A numeric field could not be parsed (1-based line number, offending token).
    BadNumber { line: usize, token: String },
    /// A face references a record that does not exist (the resolved 0-based index).
    IndexOutOfRange { line: usize, index: i64 },
    /// A face has fewer than three vertices.
    DegenerateFace { line: usize },
    /// The file has no triangles at all.
    Empty,
}

impl View for ObjError {
    type V = ObjFault;

    open spec fn view(&self) -> ObjFault {
        match self {
            ObjError::BadNumber { line, token } => ObjFault::BadNumber {
                line: *line as int,
                token: token@,
            },
            ObjError::IndexOutOfRange { line, index } => ObjFault::IndexOutOfRange {
                line: *line as int,
                index: *index as int,
            },
            ObjError::DegenerateFace { line } => ObjFault::DegenerateFace { line: *line as int },
            ObjError::Empty => ObjFault::Empty,
        }
    }
}

/// The characters `s[a..b)` as a `String`, collected by std's `String::from_iter`
/// over that slice of `char`s: the claim is that the string holds exactly those
/// characters, in order.
#[verifier::external_body]
fn span_string(s: &Vec<char>, a: usize, b: usize) -> (r: String)
    requires
        a <= b <= s@.len(),
    ensures
        r@ == s@.subrange(a as int, b as int),
{
    String::from_iter(&s[a..b])
}

/// Whether `s[a..b)` is exactly the word `w`.
fn span_is(s: &Vec<char>, a: usize, b: usize, w: &[char]) -> (r: bool)
    requires
        a <= b <= s@.len(),
    ensures
        r == (s@.subrange(a as int, b as int) == w@),
{
    if b - a != w.len() {
        proof {
            assert(s@.subrange(a as int, b as int).len() != w@.len());
        }
        return false;
    }
    let mut i: usize = 0;
    while i < w.len()
        invariant
            a <= b <= s@.len(),
            b - a == w@.len(),
            0 <= i <= w@.len(),
            forall|k: int| 0 <= k < i ==> s@[a + k] == w@[k],
        decreases w@.len() - i,
    {
        if s[a + i] != w[i] {
            proof {
                assert(s@.subrange(a as int, b as int)[i as int] == s@[a + i]);
            }
            return false;
        }
        i += 1;
    }
    proof {
        assert(s@.subrange(a as int, b as int) =~= w@);
    }
    true
}

/// The 0-based record index a face field names, as `MeshData::from_obj` resolves it.
fn resolve_index(s: &Vec<char>, a: usize, b: usize, len: usize, line: usize) -> (r: Result<
    u32,
    ObjError,
>)
    requires
        a <= b <= s@.len(),
        len <= u32::MAX,
    ensures
        match resolve_spec(s@.subrange(a as int, b as int), len as int, line as int) {
            Ok(i) => r == Ok::<u32, ObjError>(i as u32),
            Err(e) => r matches Err(x) && x@ == e,
        },
{
    match parse_i64_span(s, a, b) {
        None => Err(ObjError::BadNumber { line, token: span_string(s, a, b) }),
        Some(raw) => {
            let idx: i64 = if raw < 0 {
                len as i64 + raw
            } else {
                raw - 1
            };
            if idx < 0 || idx >= len as i64 {
                Err(ObjError::IndexOutOfRange { line, index: idx })
            } else {
                Ok(idx as u32)
            }
        },
    }
}


// ----- reader -------------------------------------------------------------------

/// The key under which a corner's output vertex is looked up.
pub open spec fn vertex_key(v: (int, Option<int>)) -> int {
    v.0 * 0x1_0000_0000 + match v.1 {
        None => 0,
        Some(n) => n + 1,
    }
}

proof fn lemma_vertex_key_injective(a: (int, Option<int>), b: (int, Option<int>))
    requires
        0 <= a.0 < 0x1_0000_0000,
        0 <= b.0 < 0x1_0000_0000,
        a.1 matches Some(n) ==> 0 <= n < 0xffff_ffff,
        b.1 matches Some(n) ==> 0 <= n < 0xffff_ffff,
        vertex_key(a) == vertex_key(b),
    ensures
        a == b,
{
    let ca = match a.1 {
        None => 0,
        Some(n) => n + 1,
    };
    let cb = match b.1 {
        None => 0,
        Some(n) => n + 1,
    };
    assert(a.0 == b.0) by (nonlinear_arith)
        requires
            a.0 * 0x1_0000_0000 + ca == b.0 * 0x1_0000_0000 + cb,
            0 <= ca < 0x1_0000_0000,
            0 <= cb < 0x1_0000_0000,
    ;
}

struct Reader {
    positions: Vec<ObjTriple>,
    normals: Vec<ObjTriple>,
    vertices: Vec<ObjVertex>,
    indices: Vec<u32>,
    all_have_normals: bool,
    lookup: HashMap<u64, u32>,
}

impl Reader {
    spec fn model(&self) -> ObjModel {
        ObjModel {
            positions: self.positions@.map_values(|t: ObjTriple| t@),
            normals: self.normals@.map_values(|t: ObjTriple| t@),
            vertices: self.vertices@.map_values(|v: ObjVertex| v.model()),
            indices: self.indices@.map_values(|i: u32| i as int),
            all_have_normals: self.all_have_normals,
        }
    }

    spec fn wf(&self) -> bool {
        &&& model_wf(self.model())
        &&& self.positions@.len() <= u32::MAX
        &&& self.normals@.len() <= u32::MAX
        &&& self.vertices@.len() < u32::MAX
        &&& forall|i: int|
            0 <= i < self.vertices@.len() ==> {
                let k = vertex_key(#[trigger] self.vertices@[i].model()) as u64;
                self.lookup@.contains_key(k) && self.lookup@[k] == i
            }
        &&& forall|k: u64| #[trigger]
            self.lookup@.contains_key(k) ==> (self.lookup@[k] as int) < self.vertices@.len()
                && vertex_key(self.vertices@[self.lookup@[k] as int].model()) == k
    }

    /// One corner of a face; returns its output vertex.
    fn add_corner(&mut self, s: &Vec<char>, a: usize, b: usize, line: usize) -> (r: Result<
        u32,
        ObjError,
    >)
        requires
            old(self).wf(),
            a <= b <= s@.len(),
            old(self).vertices@.len() + 1 < u32::MAX,
        ensures
            match add_corner(old(self).model(), s@.subrange(a as int, b as int), line as int) {
                Ok((m, idx)) => r == Ok::<u32, ObjError>(idx as u32) && final(self).model() == m
                    && 0 <= idx < m.vertices.len() && final(self).wf() && final(self).positions@.len() == old(
                    self,
                ).positions@.len() && final(self).normals@.len() == old(self).normals@.len()
                    && final(self).vertices@.len() <= old(self).vertices@.len() + 1,
                Err(e) => r matches Err(x) && x@ == e,
            },
    {
        let ghost tok = s@.subrange(a as int, b as int);
        let ghost m = self.model();
        let p_end = find_char(s, a, b, '/');
        proof {
            lemma_prefix_len_until_bound(tok, '/');
            assert(position_field(tok) =~= s@.subrange(a as int, p_end as int));
        }
        let pi = match resolve_index(s, a, p_end, self.positions.len(), line) {
            Ok(i) => i,
            Err(e) => {
                return Err(e);
            },
        };
        // the normal field, between the second and third '/'
        let mut ni: Option<u32> = None;
        if p_end < b {
            let t_end = find_char(s, p_end + 1, b, '/');
            proof {
                let r1 = tok.skip(p_end - a + 1);
                assert(r1 =~= s@.subrange(p_end + 1, b as int));
                lemma_prefix_len_until_bound(r1, '/');
            }
            if t_end < b {
                let n_end = find_char(s, t_end + 1, b, '/');
                proof {
                    let r1 = tok.skip(p_end - a + 1);
                    let r2 = r1.skip(t_end - p_end);
                    assert(r2 =~= s@.subrange(t_end + 1, b as int));
                    lemma_prefix_len_until_bound(r2, '/');
                    assert(normal_field(tok) == Some(s@.subrange(t_end + 1, n_end as int)));
                }
                if n_end > t_end + 1 {
                    match resolve_index(s, t_end + 1, n_end, self.normals.len(), line) {
                        Ok(n) => {
                            ni = Some(n);
                        },
                        Err(e) => {
                            return Err(e);
                        },
                    }
                }
            } else {
                assert(normal_field(tok) is None);
            }
        } else {
            assert(normal_field(tok) is None);
        }
        if ni.is_none() {
            self.all_have_normals = false;
        }
        let v = ObjVertex { position: pi, normal: ni };
        let code: u64 = match ni {
            None => 0,
            Some(n) => n as u64 + 1,
        };
        let key: u64 = pi as u64 * 0x1_0000_0000 + code;
        assert(key == vertex_key(v.model()));
        let ghost m1 = self.model();
        assert(m1.vertices == m.vertices);
        match self.lookup.get(&key) {
            Some(idx) => {
                let idx = *idx;
                proof {
                    let j = idx as int;
                    let w = self.vertices@[j];
                    assert(m1.vertices[j] == w.model());
                    lemma_vertex_key_injective(w.model(), v.model());
                    assert(m1.vertices.contains(v.model()));
                    let c = m1.vertices.index_of(v.model());
                    assert(m1.vertices[c] == v.model());
                    assert(m1.vertices.no_duplicates());
                }
                Ok(idx)
            },
            None => {
                proof {
                    if m1.vertices.contains(v.model()) {
                        let c = choose|c: int|
                            0 <= c < m1.vertices.len() && m1.vertices[c] == v.model();
                        assert(self.vertices@[c].model() == v.model());
                    }
                }
                let idx = self.vertices.len() as u32;
                self.vertices.push(v);
                self.lookup.insert(key, idx);
                proof {
                    assert(self.model().vertices =~= m1.vertices.push(v.model()));
                    assert forall|k: u64| #[trigger]
                        self.lookup@.contains_key(k) implies (self.lookup@[k] as int)
                        < self.vertices@.len() && vertex_key(
                        self.vertices@[self.lookup@[k] as int].model(),
                    ) == k by {
                        if k != key {
                            assert(self.vertices@[self.lookup@[k] as int] == old(
                                self,
                            ).vertices@[self.lookup@[k] as int]);
                        }
                    }
                    assert forall|i: int| 0 <= i < self.vertices@.len() implies {
                        let k = vertex_key(#[trigger] self.vertices@[i].model()) as u64;
                        self.lookup@.contains_key(k) && self.lookup@[k] == i
                    } by {
                        if i < self.vertices@.len() - 1 {
                            assert(self.vertices@[i] == old(self).vertices@[i]);
                            let k = vertex_key(self.vertices@[i].model()) as u64;
                            assert(k != key);
                        }
                    }
                }
                Ok(idx)
            },
        }
    }
}


impl Reader {
    /// The corners of a face line (`toks[0]` is the `f` tag) and its fan triangles.
    fn read_face(&mut self, s: &Vec<char>, toks: &Vec<(usize, usize)>, line: usize) -> (r: Result<
        (),
        ObjError,
    >)
        requires
            old(self).wf(),
            toks@.len() >= 1,
            forall|k: int|
                0 <= k < toks@.len() ==> (#[trigger] toks@[k]).0 <= toks@[k].1 <= s@.len(),
            old(self).vertices@.len() + toks@.len() < u32::MAX,
        ensures
            match face_corners(
                old(self).model(),
                span_view(s@, toks@).drop_first(),
                seq![],
                line as int,
            ) {
                Err(e) => r matches Err(x) && x@ == e,
                Ok((m2, c)) => if c.len() < 3 {
                    r matches Err(x) && x@ == ObjFault::DegenerateFace { line: line as int }
                } else {
                    r is Ok && final(self).model() == (ObjModel {
                        indices: m2.indices + fan(c),
                        ..m2
                    }) && final(self).wf() && final(self).positions@.len() == old(
                        self,
                    ).positions@.len() && final(self).normals@.len() == old(self).normals@.len()
                        && final(self).vertices@.len() <= old(self).vertices@.len() + toks@.len()
                },
            },
    {
        let ghost all = span_view(s@, toks@);
        let ghost m0 = self.model();
        let mut corners: Vec<u32> = Vec::new();
        let mut k: usize = 1;
        proof {
            assert(all.drop_first() =~= all.skip(1));
            assert(corners@.map_values(|c: u32| c as int) =~= Seq::<int>::empty());
        }
        while k < toks.len()
            invariant
                self.wf(),
                1 <= k <= toks@.len(),
                all == span_view(s@, toks@),
                forall|j: int|
                    0 <= j < toks@.len() ==> (#[trigger] toks@[j]).0 <= toks@[j].1 <= s@.len(),
                self.vertices@.len() + (toks@.len() - k) < u32::MAX,
                self.vertices@.len() <= old(self).vertices@.len() + (k - 1),
                self.positions@.len() == old(self).positions@.len(),
                self.normals@.len() == old(self).normals@.len(),
                m0 == old(self).model(),
                forall|j: int|
                    0 <= j < corners@.len() ==> (#[trigger] corners@[j] as int)
                        < self.vertices@.len(),
                face_corners(m0, all.drop_first(), seq![], line as int) == face_corners(
                    self.model(),
                    all.skip(k as int),
                    corners@.map_values(|c: u32| c as int),
                    line as int,
                ),
            decreases toks@.len() - k,
        {
            let (a, b) = toks[k];
            let ghost before = self.model();
            let ghost cs = corners@.map_values(|c: u32| c as int);
            proof {
                assert(all.skip(k as int)[0] == s@.subrange(a as int, b as int));
                assert(all.skip(k as int).drop_first() =~= all.skip(k + 1));
            }
            let idx = match self.add_corner(s, a, b, line) {
                Ok(i) => i,
                Err(e) => {
                    return Err(e);
                },
            };
            let ghost old_corners = corners@;
            corners.push(idx);
            proof {
                assert(corners@.map_values(|c: u32| c as int) =~= cs.push(idx as int));
                assert forall|j: int| 0 <= j < corners@.len() implies (#[trigger] corners@[j] as int)
                    < self.vertices@.len() by {
                    if j < old_corners.len() {
                        assert(corners@[j] == old_corners[j]);
                    }
                }
            }
            k += 1;
        }
        proof {
            assert(all.skip(k as int) =~= Seq::<Seq<char>>::empty());
        }
        let ghost c = corners@.map_values(|c: u32| c as int);
        let ghost m2 = self.model();
        if corners.len() < 3 {
            return Err(ObjError::DegenerateFace { line });
        }
        let ghost base = self.model().indices;
        let ghost pos0 = self.positions@;
        let ghost nor0 = self.normals@;
        let ghost ver0 = self.vertices@;
        let ghost look0 = self.lookup@;
        let ghost ah0 = self.all_have_normals;
        let mut t: usize = 1;
        while t < corners.len() - 1
            invariant
                1 <= t < corners@.len(),
                corners@.len() >= 3,
                c == corners@.map_values(|c: u32| c as int),
                base + fan(c) == self.model().indices + fan_from(c, t as int),
                m2.indices == base,
                self.positions@ == pos0,
                self.normals@ == nor0,
                self.vertices@ == ver0,
                self.lookup@ == look0,
                self.all_have_normals == ah0,
                forall|j: int|
                    0 <= j < corners@.len() ==> (#[trigger] corners@[j] as int)
                        < self.vertices@.len(),
                self.wf(),
            decreases corners@.len() - t,
        {
            let ghost before = self.model().indices;
            self.indices.push(corners[0]);
            self.indices.push(corners[t]);
            self.indices.push(corners[t + 1]);
            proof {
                assert(self.model().indices =~= before + seq![c[0], c[t as int], c[t + 1]]);
                assert(model_wf(self.model()));
                assert(fan_from(c, t as int) == seq![c[0], c[t as int], c[t + 1]] + fan_from(
                    c,
                    t + 1,
                ));
                assert(before + fan_from(c, t as int) =~= self.model().indices + fan_from(
                    c,
                    t + 1,
                ));
            }
            t += 1;
        }
        proof {
            assert(fan_from(c, t as int) =~= Seq::<int>::empty());
            assert(base + fan(c) =~= self.model().indices);
        }
        Ok(())
    }
}


/// Token `i` of the spans as `s[a..b)` (an empty span at the line end when missing).
fn span_or_empty(toks: &Vec<(usize, usize)>, i: usize, end: usize) -> (r: (usize, usize))
    ensures
        i < toks@.len() ==> r == toks@[i as int],
        i >= toks@.len() ==> r == (end, end),
{
    if i < toks.len() {
        toks[i]
    } else {
        (end, end)
    }
}

/// Number token `i` of a `v` / `vn` line.
fn read_number_field(s: &Vec<char>, toks: &Vec<(usize, usize)>, i: usize, line: usize) -> (r: Result<
    String,
    ObjError,
>)
    requires
        forall|k: int|
            0 <= k < toks@.len() ==> (#[trigger] toks@[k]).0 <= toks@[k].1 <= s@.len(),
    ensures
        ({
            let t = token_or_empty(span_view(s@, toks@), i as int);
            if is_float_literal(t) {
                r matches Ok(x) && x@ == t
            } else {
                r matches Err(x) && x@ == ObjFault::BadNumber { line: line as int, token: t }
            }
        }),
{
    let ghost v = span_view(s@, toks@);
    let (a, b) = span_or_empty(toks, i, 0);
    proof {
        if i < toks@.len() {
            assert(token_or_empty(v, i as int) == s@.subrange(a as int, b as int));
        } else {
            assert(s@.subrange(0, 0) =~= Seq::<char>::empty());
        }
    }
    if !is_float_span(s, a, b) {
        return Err(ObjError::BadNumber { line, token: span_string(s, a, b) });
    }
    Ok(span_string(s, a, b))
}

/// The three number tokens of a `v` / `vn` line.
fn read_number_record(s: &Vec<char>, toks: &Vec<(usize, usize)>, line: usize) -> (r: Result<
    ObjTriple,
    ObjError,
>)
    requires
        forall|k: int|
            0 <= k < toks@.len() ==> (#[trigger] toks@[k]).0 <= toks@[k].1 <= s@.len(),
    ensures
        match number_record(span_view(s@, toks@), line as int) {
            Ok(rec) => r matches Ok(t) && t@ == rec,
            Err(e) => r matches Err(x) && x@ == e,
        },
{
    let x = read_number_field(s, toks, 1, line)?;
    let y = read_number_field(s, toks, 2, line)?;
    let z = read_number_field(s, toks, 3, line)?;
    let t = ObjTriple { x, y, z };
    proof {
        let v = span_view(s@, toks@);
        assert(t@ =~= seq![token_or_empty(v, 1), token_or_empty(v, 2), token_or_empty(v, 3)]);
    }
    Ok(t)
}

impl Reader {
    /// One line given its token spans.
    fn read_line(&mut self, s: &Vec<char>, toks: &Vec<(usize, usize)>, line: usize) -> (r: Result<
        (),
        ObjError,
    >)
        requires
            old(self).wf(),
            forall|k: int|
                0 <= k < toks@.len() ==> (#[trigger] toks@[k]).0 <= toks@[k].1 <= s@.len(),
            old(self).vertices@.len() + toks@.len() < u32::MAX,
            toks@.len() > 0 ==> old(self).positions@.len() < u32::MAX,
            toks@.len() > 0 ==> old(self).normals@.len() < u32::MAX,
        ensures
            match read_line(old(self).model(), span_view(s@, toks@), line as int) {
                Err(e) => r matches Err(x) && x@ == e,
                Ok(m) => r is Ok && final(self).model() == m && final(self).wf()
                    && final(self).positions@.len() <= old(self).positions@.len() + 1
                    && final(self).normals@.len() <= old(self).normals@.len() + 1
                    && final(self).vertices@.len() <= old(self).vertices@.len() + toks@.len(),
            },
    {
        let ghost v = span_view(s@, toks@);
        if toks.len() == 0 {
            return Ok(());
        }
        let (a, b) = toks[0];
        assert(v[0] == s@.subrange(a as int, b as int));
        proof {
            assert(seq!['v'] =~= ['v']@);
            assert(seq!['v', 'n'] =~= ['v', 'n']@);
            assert(seq!['f'] =~= ['f']@);
        }
        if span_is(s, a, b, &['v']) {
            let t = read_number_record(s, toks, line)?;
            let ghost m = self.model();
            self.positions.push(t);
            proof {
                assert(self.model().positions =~= m.positions.push(t@));
                assert(self.model() == (ObjModel { positions: m.positions.push(t@), ..m }));
            }
            Ok(())
        } else if span_is(s, a, b, &['v', 'n']) {
            let t = read_number_record(s, toks, line)?;
            let ghost m = self.model();
            self.normals.push(t);
            proof {
                assert(self.model().normals =~= m.normals.push(t@));
                assert(self.model() == (ObjModel { normals: m.normals.push(t@), ..m }));
            }
            Ok(())
        } else if span_is(s, a, b, &['f']) {
            self.read_face(s, toks, line)
        } else {
            Ok(())
        }
    }
}

/// Reads a Wavefront OBJ text. Faces with more than three corners are
/// fan-triangulated and corners naming the same (position, normal) pair share one
/// output vertex. Materials, textures and groups are ignored.
pub fn parse_obj(text: &str) -> (r: Result<ObjMesh, ObjError>)
    requires
        text@.len() < u32::MAX,
    ensures
        match obj_parse(text@) {
            Ok(m) => r matches Ok(mesh) && mesh@ == m,
            Err(e) => r matches Err(x) && x@ == e,
        },
        r matches Ok(mesh) ==> model_wf(mesh@) && mesh@.indices.len() > 0,
{
    let s = collect_chars(text);
    let n = s.len();
    let mut rd = Reader {
        positions: Vec::new(),
        normals: Vec::new(),
        vertices: Vec::new(),
        indices: Vec::new(),
        all_have_normals: true,
        lookup: HashMap::new(),
    };
    proof {
        assert(rd.model().positions =~= empty_model().positions);
        assert(rd.model().normals =~= empty_model().normals);
        assert(rd.model().vertices =~= empty_model().vertices);
        assert(rd.model().indices =~= empty_model().indices);
        assert(rd.model() == empty_model());
        assert(s@.skip(0) =~= s@);
    }
    let mut start: usize = 0;
    let mut line: usize = 1;
    loop
        invariant_except_break
            start <= n,
            line <= start + 1,
            rd.positions@.len() <= start,
            rd.normals@.len() <= start,
            rd.vertices@.len() <= start,
            read_lines(s@, 1, empty_model()) == read_lines(
                s@.skip(start as int),
                line as int,
                rd.model(),
            ),
        invariant
            s@ == text@,
            n == s@.len(),
            n < u32::MAX,
            rd.wf(),
        ensures
            read_lines(s@, 1, empty_model()) == Ok::<ObjModel, ObjFault>(rd.model()),
        decreases n - start,
    {
        let ghost rest = s@.skip(start as int);
        let end = find_char(&s, start, n, '\n');
        let hend = find_char(&s, start, end, '#');
        let toks = split_whitespace(&s, start, hend);
        proof {
            assert(s@.subrange(start as int, n as int) =~= rest);
            lemma_prefix_len_until_bound(rest, '\n');
            let ln = rest.take(end - start);
            assert(ln =~= s@.subrange(start as int, end as int));
            assert(ln.take(hend - start) =~= s@.subrange(start as int, hend as int));
            assert(line_tokens(ln) == span_view(s@, toks@));
        }
        rd.read_line(&s, &toks, line)?;
        if end == n {
            proof {
                assert(end - start == rest.len());
            }
            break;
        }
        proof {
            assert(rest.skip(end - start + 1) =~= s@.skip(end + 1));
        }
        start = end + 1;
        line += 1;
    }
    if rd.indices.len() == 0 {
        return Err(ObjError::Empty);
    }
    Ok(
        ObjMesh {
            positions: rd.positions,
            normals: rd.normals,
            vertices: rd.vertices,
            indices: rd.indices,
            all_have_normals: rd.all_have_normals,
        },
    )
}

} // verus!
