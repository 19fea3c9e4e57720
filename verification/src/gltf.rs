//! Binary glTF (GLB) framing: the BIN buffer with its buffer views, index
//! accessors, primitives, the JSON document and the GLB container.
use vstd::prelude::*;

use crate::bytes::{le16, le32, lemma_le32_round_trip, push_le16, push_le32, u32_from_le};
use crate::text::{decimal, push_decimal};

verus! {

/// `n` zero bytes.
pub open spec fn zeros(n: nat) -> Seq<u8> {
    fill_bytes(n, 0u8)
}

/// How many bytes bring `n` up to a multiple of four.
pub open spec fn pad4(n: nat) -> nat {
    ((4 - n % 4) % 4) as nat
}

/// The JSON of a buffer view over `len` bytes at `offset`.
pub open spec fn buffer_view_json(offset: nat, len: nat, target: nat) -> Seq<char> {
    "{\"buffer\":0,\"byteOffset\":"@ + decimal(offset) + ",\"byteLength\":"@ + decimal(len)
        + ",\"target\":"@ + decimal(target) + "}"@
}

/// The JSON of a scalar index accessor.
pub open spec fn index_accessor_json(view: nat, component_type: nat, count: nat) -> Seq<char> {
    "{\"bufferView\":"@ + decimal(view) + ",\"componentType\":"@ + decimal(component_type)
        + ",\"count\":"@ + decimal(count) + ",\"type\":\"SCALAR\"}"@
}

/// Index bytes: 16-bit when every vertex index fits, else 32-bit, little-endian.
pub open spec fn index_bytes(indices: Seq<u32>, wide: bool) -> Seq<u8>
    decreases indices.len(),
{
    if indices.len() == 0 {
        Seq::empty()
    } else {
        index_bytes(indices.drop_last(), wide) + (if wide {
            le32(indices.last())
        } else {
            le16(indices.last() as u16)
        })
    }
}

/// The strings of a vector of strings.
pub open spec fn strings_view(v: Seq<String>) -> Seq<Seq<char>> {
    v.map_values(|s: String| s@)
}

/// Append `data` to the BIN buffer at a four-byte aligned offset and register
/// a buffer view over it; returns the new view's index.
pub fn push_buffer_view(views: &mut Vec<String>, bin: &mut Vec<u8>, data: &[u8], target: u32) -> (r:
    usize)
    ensures
        r == old(views)@.len(),
        final(bin)@ == old(bin)@ + zeros(pad4(old(bin)@.len())) + data@,
        strings_view(final(views)@) == strings_view(old(views)@).push(
            buffer_view_json(old(bin)@.len() + pad4(old(bin)@.len()), data@.len(), target as nat),
        ),
{
    pad_to_four(bin, 0u8);
    let offset = bin.len();
    let n = data.len();
    append_bytes(bin, data);
    let idx = views.len();
    let mut s = String::new();
    s.append("{\"buffer\":0,\"byteOffset\":");
    push_decimal(&mut s, offset as u64);
    s.append(",\"byteLength\":");
    push_decimal(&mut s, n as u64);
    s.append(",\"target\":");
    push_decimal(&mut s, target as u64);
    s.append("}");
    assert(s@ =~= buffer_view_json(offset as nat, n as nat, target as nat));
    let ghost v0 = views@;
    views.push(s);
    assert(strings_view(views@) =~= strings_view(v0).push(s@));
    idx
}

/// The JSON of a `VEC3` float accessor; `bounds` is its `"min":[..],"max":[..]`
/// member pair as printed.
pub open spec fn vec3_accessor_json(view: nat, count: nat, bounds: Seq<char>) -> Seq<char> {
    "{\"bufferView\":"@ + decimal(view) + ",\"componentType\":5126,\"count\":"@ + decimal(count)
        + ",\"type\":\"VEC3\","@ + bounds + "}"@
}

/// Append the packed little-endian `f32` triples of `count` points
/// (`data`) to BIN as a vertex buffer view and register a `VEC3` accessor
/// over it; `bounds` is the accessor's printed min/max. Returns the new
/// accessor's index.
pub fn push_accessor_vec3(
    views: &mut Vec<String>,
    accs: &mut Vec<String>,
    bin: &mut Vec<u8>,
    data: &[u8],
    count: usize,
    bounds: &str,
) -> (r: usize)
    ensures
        r == old(accs)@.len(),
        final(bin)@ == old(bin)@ + zeros(pad4(old(bin)@.len())) + data@,
        strings_view(final(views)@) == strings_view(old(views)@).push(
            buffer_view_json(old(bin)@.len() + pad4(old(bin)@.len()), data@.len(), 34962),
        ),
        strings_view(final(accs)@) == strings_view(old(accs)@).push(
            vec3_accessor_json(old(views)@.len() as nat, count as nat, bounds@),
        ),
{
    let bv = push_buffer_view(views, bin, data, 34962);
    let idx = accs.len();
    let mut s = String::new();
    s.append("{\"bufferView\":");
    push_decimal(&mut s, bv as u64);
    s.append(",\"componentType\":5126,\"count\":");
    push_decimal(&mut s, count as u64);
    s.append(",\"type\":\"VEC3\",");
    s.append(bounds);
    s.append("}");
    assert(s@ =~= vec3_accessor_json(bv as nat, count as nat, bounds@));
    let ghost a0 = accs@;
    accs.push(s);
    assert(strings_view(accs@) =~= strings_view(a0).push(s@));
    idx
}

/// Append an index buffer to BIN and register a scalar accessor over it:
/// unsigned 16-bit indices (component type 5123) when `vertex_count` fits in
/// 16 bits, else unsigned 32-bit (5125). Returns the new accessor's index.
pub fn push_accessor_index(
    views: &mut Vec<String>,
    accs: &mut Vec<String>,
    bin: &mut Vec<u8>,
    indices: &[u32],
    vertex_count: usize,
) -> (r: usize)
    ensures
        r == old(accs)@.len(),
        final(bin)@ == old(bin)@ + zeros(pad4(old(bin)@.len())) + index_bytes(
            indices@,
            vertex_count > 65535,
        ),
        strings_view(final(views)@) == strings_view(old(views)@).push(
            buffer_view_json(
                old(bin)@.len() + pad4(old(bin)@.len()),
                index_bytes(indices@, vertex_count > 65535).len(),
                34963,
            ),
        ),
        strings_view(final(accs)@) == strings_view(old(accs)@).push(
            index_accessor_json(
                old(views)@.len() as nat,
                (if vertex_count > 65535 {
                    5125nat
                } else {
                    5123nat
                }),
                indices@.len(),
            ),
        ),
{
    let wide = vertex_count > 65535;
    let mut bytes: Vec<u8> = Vec::new();
    let n = indices.len();
    for k in 0..n
        invariant
            n == indices@.len(),
            bytes@ == index_bytes(indices@.take(k as int), wide),
    {
        let i = indices[k];
        if wide {
            push_le32(&mut bytes, i);
        } else {
            push_le16(&mut bytes, i as u16);
        }
        assert(indices@.take(k + 1).drop_last() =~= indices@.take(k as int));
        assert(indices@.take(k + 1).last() == i);
    }
    assert(indices@.take(n as int) =~= indices@);
    let component_type: u64 = if wide {
        5125
    } else {
        5123
    };
    let bv = push_buffer_view(views, bin, bytes.as_slice(), 34963);
    let idx = accs.len();
    let mut s = String::new();
    s.append("{\"bufferView\":");
    push_decimal(&mut s, bv as u64);
    s.append(",\"componentType\":");
    push_decimal(&mut s, component_type);
    s.append(",\"count\":");
    push_decimal(&mut s, n as u64);
    s.append(",\"type\":\"SCALAR\"}");
    assert(s@ =~= index_accessor_json(bv as nat, component_type as nat, n as nat));
    let ghost a0 = accs@;
    accs.push(s);
    assert(strings_view(accs@) =~= strings_view(a0).push(s@));
    idx
}

/// The triangle index buffer of a mesh as 32-bit indices.
pub fn triangle_indices(indices: &[usize]) -> (r: Vec<u32>)
    ensures
        r@ == indices@.map_values(|i: usize| i as u32),
{
    let mut out: Vec<u32> = Vec::new();
    let n = indices.len();
    for k in 0..n
        invariant
            n == indices@.len(),
            out@ == indices@.take(k as int).map_values(|i: usize| i as u32),
    {
        out.push(indices[k] as u32);
        assert(out@ =~= indices@.take(k + 1).map_values(|i: usize| i as u32));
    }
    assert(indices@.take(n as int) =~= indices@);
    out
}

/// The JSON of a triangle primitive over shared POSITION and NORMAL accessors.
pub open spec fn triangle_primitive_json(
    position: nat,
    normal: nat,
    indices: nat,
    material: Option<nat>,
) -> Seq<char> {
    "{\"attributes\":{\"POSITION\":"@ + decimal(position) + ",\"NORMAL\":"@ + decimal(normal)
        + "},\"indices\":"@ + decimal(indices) + ",\"mode\":4"@ + match material {
        Some(m) => ",\"material\":"@ + decimal(m),
        None => Seq::empty(),
    } + "}"@
}

/// The JSON of the edge LINES primitive, tagged so that readers can find it.
pub open spec fn edge_primitive_json(position: nat, indices: nat) -> Seq<char> {
    "{\"attributes\":{\"POSITION\":"@ + decimal(position) + "},\"indices\":"@ + decimal(indices)
        + ",\"mode\":1,\"extras\":{\"cadrum\":\"edges\"}}"@
}

/// A triangle primitive.
pub fn triangle_primitive(position: usize, normal: usize, indices: usize, material: Option<usize>) -> (r:
    String)
    ensures
        r@ == triangle_primitive_json(
            position as nat,
            normal as nat,
            indices as nat,
            match material {
                Some(m) => Some(m as nat),
                None => None,
            },
        ),
{
    let mut s = String::new();
    s.append("{\"attributes\":{\"POSITION\":");
    push_decimal(&mut s, position as u64);
    s.append(",\"NORMAL\":");
    push_decimal(&mut s, normal as u64);
    s.append("},\"indices\":");
    push_decimal(&mut s, indices as u64);
    s.append(",\"mode\":4");
    match material {
        Some(m) => {
            s.append(",\"material\":");
            push_decimal(&mut s, m as u64);
        },
        None => {},
    }
    s.append("}");
    assert(s@ =~= triangle_primitive_json(
        position as nat,
        normal as nat,
        indices as nat,
        match material {
            Some(m) => Some(m as nat),
            None => None,
        },
    ));
    s
}

/// The edge LINES primitive.
pub fn edge_primitive(position: usize, indices: usize) -> (r: String)
    ensures
        r@ == edge_primitive_json(position as nat, indices as nat),
{
    let mut s = String::new();
    s.append("{\"attributes\":{\"POSITION\":");
    push_decimal(&mut s, position as u64);
    s.append("},\"indices\":");
    push_decimal(&mut s, indices as u64);
    s.append(",\"mode\":1,\"extras\":{\"cadrum\":\"edges\"}}");
    assert(s@ =~= edge_primitive_json(position as nat, indices as nat));
    s
}

/// `parts` separated by `sep`.
pub open spec fn join(parts: Seq<Seq<char>>, sep: Seq<char>) -> Seq<char>
    decreases parts.len(),
{
    if parts.len() == 0 {
        Seq::empty()
    } else if parts.len() == 1 {
        parts[0]
    } else {
        join(parts.drop_last(), sep) + sep + parts.last()
    }
}

/// Append `parts` separated by commas.
fn push_joined(s: &mut String, parts: &Vec<String>)
    ensures
        final(s)@ == old(s)@ + join(strings_view(parts@), ","@),
{
    let n = parts.len();
    let ghost pv = strings_view(parts@);
    for k in 0..n
        invariant
            n == parts@.len(),
            pv == strings_view(parts@),
            s@ == old(s)@ + join(pv.take(k as int), ","@),
    {
        proof {
            assert(pv.take(k + 1).drop_last() =~= pv.take(k as int));
            assert(pv.take(k + 1).last() == parts@[k as int]@);
        }
        if k > 0 {
            s.append(",");
        }
        s.append(parts[k].as_str());
        proof {
            if k == 0 {
                assert(pv.take(1)[0] == parts@[0]@);
                assert(join(pv.take(0), ","@) =~= Seq::<char>::empty());
            }
            assert(s@ =~= old(s)@ + join(pv.take(k + 1), ","@));
        }
    }
    assert(pv.take(n as int) =~= pv);
}

/// `acc` with `m` appended when `cond` holds.
pub open spec fn push_if(acc: Seq<Seq<char>>, cond: bool, m: Seq<char>) -> Seq<Seq<char>> {
    if cond {
        acc.push(m)
    } else {
        acc
    }
}

/// The members of the glTF JSON document, in order.
pub open spec fn gltf_members(
    bin_len: nat,
    views: Seq<Seq<char>>,
    accessors: Seq<Seq<char>>,
    materials: Seq<Seq<char>>,
    primitives: Seq<Seq<char>>,
) -> Seq<Seq<char>> {
    let m0 = seq!["\"asset\":{\"version\":\"2.0\",\"generator\":\"cadrum\"}"@];
    let m1 = push_if(m0, bin_len > 0, "\"buffers\":[{\"byteLength\":"@ + decimal(bin_len) + "}]"@);
    let m2 = push_if(m1, views.len() > 0, "\"bufferViews\":["@ + join(views, ","@) + "]"@);
    let m3 = push_if(m2, accessors.len() > 0, "\"accessors\":["@ + join(accessors, ","@) + "]"@);
    let m4 = push_if(m3, materials.len() > 0, "\"materials\":["@ + join(materials, ","@) + "]"@);
    let p = primitives.len() > 0;
    let m5 = push_if(m4, p, "\"meshes\":[{\"primitives\":["@ + join(primitives, ","@) + "]}]"@);
    let m6 = push_if(m5, p, "\"nodes\":[{\"mesh\":0}]"@);
    let m7 = push_if(m6, p, "\"scenes\":[{\"nodes\":[0]}]"@);
    push_if(m7, p, "\"scene\":0"@)
}

/// The glTF JSON document.
pub open spec fn gltf_json_text(
    bin_len: nat,
    views: Seq<Seq<char>>,
    accessors: Seq<Seq<char>>,
    materials: Seq<Seq<char>>,
    primitives: Seq<Seq<char>>,
) -> Seq<char> {
    "{"@ + join(gltf_members(bin_len, views, accessors, materials, primitives), ","@) + "}"@
}

/// `open` + the parts joined by commas + `close`.
fn bracketed(open: &str, parts: &Vec<String>, close: &str) -> (r: String)
    ensures
        r@ == open@ + join(strings_view(parts@), ","@) + close@,
{
    let mut s = String::new();
    s.append(open);
    push_joined(&mut s, parts);
    s.append(close);
    assert(s@ =~= open@ + join(strings_view(parts@), ","@) + close@);
    s
}

/// Push `m` when `cond` holds.
fn push_member_if(members: &mut Vec<String>, cond: bool, m: String)
    ensures
        strings_view(final(members)@) == push_if(strings_view(old(members)@), cond, m@),
{
    if cond {
        let ghost v0 = members@;
        members.push(m);
        assert(strings_view(members@) =~= strings_view(v0).push(m@));
    }
}

fn literal(s: &str) -> (r: String)
    ensures
        r@ == s@,
{
    let mut r = String::new();
    r.append(s);
    assert(r@ =~= s@);
    r
}

/// Assemble the glTF JSON document from its parts.
pub fn gltf_json(
    bin_len: usize,
    views: &Vec<String>,
    accessors: &Vec<String>,
    materials: &Vec<String>,
    primitives: &Vec<String>,
) -> (r: String)
    ensures
        r@ == gltf_json_text(
            bin_len as nat,
            strings_view(views@),
            strings_view(accessors@),
            strings_view(materials@),
            strings_view(primitives@),
        ),
{
    let mut members: Vec<String> = Vec::new();
    let asset = literal("\"asset\":{\"version\":\"2.0\",\"generator\":\"cadrum\"}");
    members.push(asset);
    assert(strings_view(members@) =~= seq!["\"asset\":{\"version\":\"2.0\",\"generator\":\"cadrum\"}"@]);
    let mut buffers = literal("\"buffers\":[{\"byteLength\":");
    push_decimal(&mut buffers, bin_len as u64);
    buffers.append("}]");
    assert(buffers@ =~= "\"buffers\":[{\"byteLength\":"@ + decimal(bin_len as nat) + "}]"@);
    push_member_if(&mut members, bin_len > 0, buffers);
    push_member_if(&mut members, views.len() > 0, bracketed("\"bufferViews\":[", views, "]"));
    push_member_if(&mut members, accessors.len() > 0, bracketed("\"accessors\":[", accessors, "]"));
    push_member_if(&mut members, materials.len() > 0, bracketed("\"materials\":[", materials, "]"));
    let p = primitives.len() > 0;
    push_member_if(&mut members, p, bracketed("\"meshes\":[{\"primitives\":[", primitives, "]}]"));
    push_member_if(&mut members, p, literal("\"nodes\":[{\"mesh\":0}]"));
    push_member_if(&mut members, p, literal("\"scenes\":[{\"nodes\":[0]}]"));
    push_member_if(&mut members, p, literal("\"scene\":0"));
    bracketed("{", &members, "}")
}

/// `n` copies of `fill`.
pub open spec fn fill_bytes(n: nat, fill: u8) -> Seq<u8> {
    Seq::new(n, |i: int| fill)
}

/// The GLB frame around an already padded JSON chunk `j` and BIN chunk `b`.
pub open spec fn glb_frame(j: Seq<u8>, b: Seq<u8>, has_bin: bool) -> Seq<u8> {
    let total = if has_bin {
        12 + 8 + j.len() + 8 + b.len()
    } else {
        12 + 8 + j.len()
    };
    le32(0x46546C67u32) + le32(2u32) + le32(total as u32) + le32(j.len() as u32) + le32(
        0x4E4F534Au32,
    ) + j + (if has_bin {
        le32(b.len() as u32) + le32(0x004E4942u32) + b
    } else {
        Seq::empty()
    })
}

/// The GLB container: a 12-byte header, the JSON chunk padded with spaces to a
/// multiple of four bytes, and, when there is binary data, the BIN chunk
/// padded with zeros.
pub open spec fn glb_bytes(json: Seq<u8>, bin: Seq<u8>) -> Seq<u8> {
    glb_frame(
        json + fill_bytes(pad4(json.len()), 32u8),
        bin + fill_bytes(pad4(bin.len()), 0u8),
        bin.len() > 0,
    )
}

/// Append all bytes of `src`.
fn append_bytes(out: &mut Vec<u8>, src: &[u8])
    ensures
        final(out)@ == old(out)@ + src@,
{
    let n = src.len();
    for k in 0..n
        invariant
            n == src@.len(),
            out@ == old(out)@ + src@.take(k as int),
    {
        out.push(src[k]);
        assert(out@ =~= old(out)@ + src@.take(k + 1));
    }
    assert(src@.take(n as int) =~= src@);
}

/// A copy of `src` padded with `fill` to a multiple of four bytes.
fn padded_copy(src: &[u8], fill: u8) -> (r: Vec<u8>)
    ensures
        r@ == src@ + fill_bytes(pad4(src@.len()), fill),
{
    let mut out: Vec<u8> = Vec::new();
    append_bytes(&mut out, src);
    assert(out@ =~= src@);
    pad_to_four(&mut out, fill);
    out
}

/// Pad with `fill` to a multiple of four bytes.
#[verifier::spinoff_prover]
fn pad_to_four(out: &mut Vec<u8>, fill: u8)
    ensures
        final(out)@ == old(out)@ + fill_bytes(pad4(old(out)@.len()), fill),
{
    let ghost s = out@;
    while out.len() % 4 != 0
        invariant
            s.len() <= out@.len() <= s.len() + pad4(s.len()),
            out@ == s + fill_bytes((out@.len() - s.len()) as nat, fill),
        decreases s.len() + pad4(s.len()) - out@.len(),
    {
        out.push(fill);
        assert(out@ =~= s + fill_bytes((out@.len() - s.len()) as nat, fill));
    }
}

/// Frame a JSON document and a BIN buffer as a GLB file.
pub fn glb_container(json: &[u8], bin: &[u8]) -> (r: Vec<u8>)
    ensures
        r@ == glb_bytes(json@, bin@),
{
    let j = padded_copy(json, 32u8);
    let b = padded_copy(bin, 0u8);
    let has_bin = bin.len() > 0;
    let total: u128 = if has_bin {
        12 + 8 + j.len() as u128 + 8 + b.len() as u128
    } else {
        12 + 8 + j.len() as u128
    };
    let mut out: Vec<u8> = Vec::new();
    push_le32(&mut out, 0x46546C67u32);
    push_le32(&mut out, 2u32);
    push_le32(&mut out, #[verifier::truncate] (total as u32));
    push_le32(&mut out, #[verifier::truncate] (j.len() as u32));
    push_le32(&mut out, 0x4E4F534Au32);
    append_bytes(&mut out, j.as_slice());
    let ghost head = out@;
    if has_bin {
        push_le32(&mut out, #[verifier::truncate] (b.len() as u32));
        push_le32(&mut out, 0x004E4942u32);
        append_bytes(&mut out, b.as_slice());
        assert(out@ =~= head + (le32(b@.len() as u32) + le32(0x004E4942u32) + b@));
    } else {
        assert(out@ =~= head + Seq::<u8>::empty());
    }
    assert(out@ =~= glb_frame(j@, b@, has_bin));
    out
}

/// Padding brings a length to the next multiple of four, adding fewer than
/// four bytes.
pub proof fn lemma_pad4_aligns(n: nat)
    ensures
        (n + pad4(n)) % 4 == 0,
        pad4(n) < 4,
{
}

proof fn lemma_frame_length(j: Seq<u8>, b: Seq<u8>, has_bin: bool)
    requires
        glb_frame(j, b, has_bin).len() <= u32::MAX,
    ensures
        u32_from_le(glb_frame(j, b, has_bin).subrange(8, 12)) == glb_frame(j, b, has_bin).len(),
        glb_frame(j, b, has_bin).len() == (if has_bin {
            28 + j.len() + b.len()
        } else {
            20 + j.len()
        }),
{
    let total: nat = if has_bin {
        12 + 8 + j.len() + 8 + b.len()
    } else {
        12 + 8 + j.len()
    };
    let t = total as u32;
    let tail = if has_bin {
        le32(b.len() as u32) + le32(0x004E4942u32) + b
    } else {
        Seq::empty()
    };
    let head = le32(0x46546C67u32) + le32(2u32) + le32(t);
    let rest = le32(j.len() as u32) + le32(0x4E4F534Au32) + j + tail;
    let g = glb_frame(j, b, has_bin);
    assert(g =~= head + rest);
    assert(g.len() == total);
    assert(head.subrange(8, 12) =~= le32(t));
    assert(g.subrange(8, 12) =~= head.subrange(8, 12));
    lemma_le32_round_trip(t);
}

/// The length that a GLB header records is the length of the file (when it
/// fits in 32 bits), and the file is made of four-byte aligned chunks.
pub proof fn lemma_glb_length(json: Seq<u8>, bin: Seq<u8>)
    requires
        glb_bytes(json, bin).len() <= u32::MAX,
    ensures
        u32_from_le(glb_bytes(json, bin).subrange(8, 12)) == glb_bytes(json, bin).len(),
        glb_bytes(json, bin).len() % 4 == 0,
{
    let j = json + fill_bytes(pad4(json.len()), 32u8);
    let b = bin + fill_bytes(pad4(bin.len()), 0u8);
    let g = glb_bytes(json, bin);
    assert(g == glb_frame(j, b, bin.len() > 0));
    lemma_pad4_aligns(json.len());
    lemma_pad4_aligns(bin.len());
    let jl = j.len();
    let bl = b.len();
    assert(jl == json.len() + pad4(json.len()));
    assert(bl == bin.len() + pad4(bin.len()));
    lemma_frame_length(j, b, bin.len() > 0);
    assert((20 + jl) % 4 == 0 && (28 + jl + bl) % 4 == 0) by (nonlinear_arith)
        requires
            jl % 4 == 0,
            bl % 4 == 0,
    ;
}

/// `glTF`
pub open spec fn glb_magic() -> Seq<u8> {
    seq![0x67u8, 0x6Cu8, 0x54u8, 0x46u8]
}

/// `JSON`
pub open spec fn json_chunk_type() -> Seq<u8> {
    seq![0x4Au8, 0x53u8, 0x4Fu8, 0x4Eu8]
}

/// `BIN\0`
pub open spec fn bin_chunk_type() -> Seq<u8> {
    seq![0x42u8, 0x49u8, 0x4Eu8, 0x00u8]
}

proof fn lemma_glb_constants()
    ensures
        le32(0x46546C67u32) == glb_magic(),
        le32(0x4E4F534Au32) == json_chunk_type(),
        le32(0x004E4942u32) == bin_chunk_type(),
        u32_from_le(le32(2u32)) == 2,
{
    assert(le32(0x46546C67u32) =~= glb_magic());
    assert(le32(0x4E4F534Au32) =~= json_chunk_type());
    assert(le32(0x004E4942u32) =~= bin_chunk_type());
    lemma_le32_round_trip(2u32);
}

proof fn lemma_frame_layout(j: Seq<u8>, b: Seq<u8>, has_bin: bool)
    requires
        glb_frame(j, b, has_bin).len() <= u32::MAX,
    ensures
        glb_frame(j, b, has_bin).subrange(0, 4) == glb_magic(),
        u32_from_le(glb_frame(j, b, has_bin).subrange(4, 8)) == 2,
        u32_from_le(glb_frame(j, b, has_bin).subrange(12, 16)) == j.len(),
        glb_frame(j, b, has_bin).subrange(16, 20) == json_chunk_type(),
        glb_frame(j, b, has_bin).subrange(20, 20 + (j.len() as int)) == j,
        has_bin ==> u32_from_le(glb_frame(j, b, has_bin).subrange(20 + (j.len() as int), 24 + (j.len() as int))) == b.len(),
        has_bin ==> glb_frame(j, b, has_bin).subrange(24 + (j.len() as int), 28 + (j.len() as int)) == bin_chunk_type(),
        has_bin ==> glb_frame(j, b, has_bin).subrange(28 + (j.len() as int), 28 + (j.len() as int) + (b.len() as int)) == b,
{
    let total: nat = if has_bin {
        12 + 8 + j.len() + 8 + b.len()
    } else {
        12 + 8 + j.len()
    };
    let h0 = le32(0x46546C67u32);
    let h1 = le32(2u32);
    let h2 = le32(total as u32);
    let h3 = le32(j.len() as u32);
    let h4 = le32(0x4E4F534Au32);
    let tail = if has_bin {
        le32(b.len() as u32) + le32(0x004E4942u32) + b
    } else {
        Seq::empty()
    };
    let g = glb_frame(j, b, has_bin);
    assert(g =~= h0 + h1 + h2 + h3 + h4 + j + tail);
    lemma_glb_constants();
    assert(g.subrange(0, 4) =~= h0);
    assert(g.subrange(4, 8) =~= h1);
    assert(g.subrange(12, 16) =~= h3);
    lemma_le32_round_trip(j.len() as u32);
    assert(g.subrange(16, 20) =~= h4);
    assert(g.subrange(20, 20 + (j.len() as int)) =~= j);
    if has_bin {
        let o = 20 + j.len() as int;
        assert(g.subrange(o, o + 4) =~= le32(b.len() as u32));
        lemma_le32_round_trip(b.len() as u32);
        assert(g.subrange(o + 4, o + 8) =~= le32(0x004E4942u32));
        assert(g.subrange(o + 8, o + 8 + (b.len() as int)) =~= b);
    }
}

/// Every GLB file has the same frame (when its length fits in 32 bits): the
/// magic `glTF`, version 2 and the file length; a JSON chunk whose length is a
/// multiple of four, holding the JSON text followed by fewer than four
/// spaces; then either the end of the file, or, when there is binary data, a
/// BIN chunk whose length is the rest of the file and a multiple of four,
/// holding the data followed by zeros.
pub proof fn lemma_glb_framing(json: Seq<u8>, bin: Seq<u8>)
    requires
        glb_bytes(json, bin).len() <= u32::MAX,
    ensures
        ({
            let g = glb_bytes(json, bin);
            let n = g.len() as int;
            let jl = u32_from_le(g.subrange(12, 16)) as int;
            &&& g.subrange(0, 4) == glb_magic()
            &&& u32_from_le(g.subrange(4, 8)) == 2
            &&& u32_from_le(g.subrange(8, 12)) == n
            &&& g.subrange(16, 20) == json_chunk_type()
            &&& jl % 4 == 0
            &&& jl == json.len() + pad4(json.len())
            &&& pad4(json.len()) < 4
            &&& g.subrange(20, 20 + (json.len() as int)) == json
            &&& g.subrange(20 + (json.len() as int), 20 + jl) == fill_bytes(pad4(json.len()), 32u8)
            &&& (bin.len() == 0 ==> n == 20 + jl)
            &&& (bin.len() > 0 ==> {
                &&& u32_from_le(g.subrange(20 + jl, 24 + jl)) == n - 28 - jl
                &&& (n - 28 - jl) % 4 == 0
                &&& g.subrange(24 + jl, 28 + jl) == bin_chunk_type()
                &&& g.subrange(28 + jl, 28 + jl + (bin.len() as int)) == bin
                &&& g.subrange(28 + jl + (bin.len() as int), n) == fill_bytes(pad4(bin.len()), 0u8)
            })
        }),
{
    let j = json + fill_bytes(pad4(json.len()), 32u8);
    let b = bin + fill_bytes(pad4(bin.len()), 0u8);
    let g = glb_bytes(json, bin);
    assert(g == glb_frame(j, b, bin.len() > 0));
    lemma_glb_length(json, bin);
    lemma_split_padded(json, 32u8);
    lemma_split_padded(bin, 0u8);
    lemma_frame_length(j, b, bin.len() > 0);
    lemma_frame_layout(j, b, bin.len() > 0);
    let jl = j.len() as int;
    let bl = b.len() as int;
    lemma_sub_sub(g, 20, 20 + jl, 0, json.len() as int);
    lemma_sub_sub(g, 20, 20 + jl, json.len() as int, jl);
    if bin.len() > 0 {
        lemma_sub_sub(g, 28 + jl, 28 + jl + bl, 0, bin.len() as int);
        lemma_sub_sub(g, 28 + jl, 28 + jl + bl, bin.len() as int, bl);
    }
}

proof fn lemma_split_padded(x: Seq<u8>, fill: u8)
    ensures
        (x + fill_bytes(pad4(x.len()), fill)).subrange(0, x.len() as int) == x,
        (x + fill_bytes(pad4(x.len()), fill)).subrange(x.len() as int, (x.len() + pad4(x.len())) as int) == fill_bytes(
            pad4(x.len()),
            fill,
        ),
        (x + fill_bytes(pad4(x.len()), fill)).len() == x.len() + pad4(x.len()),
        (x.len() + pad4(x.len())) % 4 == 0,
        pad4(x.len()) < 4,
{
    let p = x + fill_bytes(pad4(x.len()), fill);
    assert(p.subrange(0, x.len() as int) =~= x);
    assert(p.subrange(x.len() as int, (x.len() + pad4(x.len())) as int) =~= fill_bytes(pad4(x.len()), fill));
    lemma_pad4_aligns(x.len());
}

proof fn lemma_sub_sub(g: Seq<u8>, a: int, b: int, c: int, d: int)
    requires
        0 <= a <= b <= g.len(),
        0 <= c <= d <= b - a,
    ensures
        g.subrange(a, b).subrange(c, d) == g.subrange(a + c, a + d),
{
    assert(g.subrange(a, b).subrange(c, d) =~= g.subrange(a + c, a + d));
}

} // verus!
