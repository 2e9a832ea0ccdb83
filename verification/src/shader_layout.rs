use vstd::prelude::*;

use crate::render_element::Transform;
use crate::render_queue::RenderCommand;

verus! {

/// The four little-endian bytes of a 32-bit word.
pub open spec fn le_bytes(x: u32) -> Seq<u8> {
    seq![
        (x % 256) as u8,
        ((x / 256) % 256) as u8,
        ((x / 65536) % 256) as u8,
        (x / 16777216) as u8,
    ]
}

/// A value that can be an element of a runtime-sized array in a WGSL
/// storage buffer, with a fixed stride.
pub trait ShaderItem: Sized + Copy {
    /// The array stride of this type, in bytes.
    spec fn stride() -> nat;

    /// The bytes of one element, padding included.
    spec fn item_bytes(item: Self) -> Seq<u8>;

    /// Every element occupies exactly one stride.
    proof fn lemma_item_bytes_len(item: Self)
        ensures
            Self::item_bytes(item).len() == Self::stride(),
    ;

    /// A stride is never empty.
    proof fn lemma_stride_positive()
        ensures
            Self::stride() > 0,
    ;

    /// The array stride of this type, in bytes.
    fn stride_bytes() -> (s: usize)
        ensures
            s == Self::stride(),
    ;

    /// Writes `items` as a runtime-sized storage array.
    fn encode_storage(items: &Vec<Self>) -> (bytes: Vec<u8>)
        requires
            array_len(items@.len(), Self::stride()) <= isize::MAX,
        ensures
            bytes@ == array_bytes(items@.map_values(|x: Self| Self::item_bytes(x)), Self::stride()),
    ;
}

/// Byte strings laid one after the other.
pub open spec fn concat_bytes(parts: Seq<Seq<u8>>) -> Seq<u8>
    decreases parts.len(),
{
    if parts.len() == 0 {
        Seq::empty()
    } else {
        concat_bytes(parts.drop_last()) + parts.last()
    }
}

/// The storage-buffer encoding of a runtime-sized array whose elements
/// encode to `parts`: the parts in order; an empty array still occupies one
/// zero-filled stride.
pub open spec fn array_bytes(parts: Seq<Seq<u8>>, stride: nat) -> Seq<u8> {
    if parts.len() == 0 {
        Seq::new(stride, |i: int| 0u8)
    } else {
        concat_bytes(parts)
    }
}

/// The size in bytes of a runtime-sized storage array of `n` elements.
pub open spec fn array_len(n: nat, stride: nat) -> nat {
    if n == 0 {
        stride
    } else {
        stride * n
    }
}

/// The storage-buffer encoding of `items`.
pub open spec fn storage_bytes<T: ShaderItem>(items: Seq<T>) -> Seq<u8> {
    array_bytes(items.map_values(|x: T| T::item_bytes(x)), T::stride())
}

/// The size in bytes of a storage array of `n` elements of `T`.
pub open spec fn storage_len<T: ShaderItem>(n: nat) -> nat {
    array_len(n, T::stride())
}

/// Whether an array of `n` elements of `T` stays within the largest
/// allocation the platform allows.
pub fn storage_fits<T: ShaderItem>(n: usize) -> (r: bool)
    ensures
        r == (storage_len::<T>(n as nat) <= isize::MAX),
{
    let s: usize = T::stride_bytes();
    proof {
        T::lemma_stride_positive();
    }
    let limit: usize = isize::MAX as usize;
    if n == 0 {
        s <= limit
    } else {
        let q: usize = limit / s;
        proof {
            let sn: int = s as int;
            let nn: int = n as int;
            let l: int = limit as int;
            assert(nn <= q ==> sn * nn <= l) by (nonlinear_arith)
                requires
                    q == l / sn,
                    sn > 0,
                    l >= 0,
            ;
            assert(nn > q ==> sn * nn > l) by (nonlinear_arith)
                requires
                    q == l / sn,
                    sn > 0,
                    l >= 0,
            ;
        }
        n <= q
    }
}

proof fn lemma_concat_bytes_len(parts: Seq<Seq<u8>>, stride: nat)
    requires
        forall|i: int| 0 <= i < parts.len() ==> #[trigger] parts[i].len() == stride,
    ensures
        concat_bytes(parts).len() == stride * parts.len(),
    decreases parts.len(),
{
    if parts.len() > 0 {
        lemma_concat_bytes_len(parts.drop_last(), stride);
        let n: nat = parts.len();
        assert(stride * (n - 1) + stride == stride * n) by (nonlinear_arith);
    }
}

/// An encoded array is one stride per element, and one stride when empty.
pub proof fn lemma_storage_bytes_len<T: ShaderItem>(items: Seq<T>)
    ensures
        storage_bytes(items).len() == storage_len::<T>(items.len()),
        storage_len::<T>(items.len()) >= T::stride(),
        T::stride() > 0,
{
    let parts = items.map_values(|x: T| T::item_bytes(x));
    assert forall|i: int| 0 <= i < parts.len() implies #[trigger] parts[i].len() == T::stride() by {
        T::lemma_item_bytes_len(items[i]);
    }
    lemma_concat_bytes_len(parts, T::stride());
    let s: nat = T::stride();
    let n: nat = items.len();
    T::lemma_stride_positive();
    if n > 0 {
        assert(s * n >= s) by (nonlinear_arith)
            requires
                n >= 1,
        ;
    }
}

/// The four bytes of `le_bytes(x)` are bytes, least significant first,
/// and together they spell `x`.
pub proof fn lemma_le_bytes_value(x: u32)
    ensures
        le_bytes(x).len() == 4,
        le_bytes(x)[0] + 256 * le_bytes(x)[1] + 65536 * le_bytes(x)[2] + 16777216 * le_bytes(x)[3]
            == x,
{
    let b = le_bytes(x);
    assert(b[0] == x % 256);
    assert(b[1] == (x / 256) % 256);
    assert(b[2] == (x / 65536) % 256);
    assert(b[3] == x / 16777216);
    assert((x % 256) + 256 * ((x / 256) % 256) + 65536 * ((x / 65536) % 256) + 16777216 * (x
        / 16777216) == x) by (nonlinear_arith);
}

/// In a concatenation of equally long parts, part `i` sits at offset
/// `stride * i`.
pub proof fn lemma_concat_part(parts: Seq<Seq<u8>>, stride: nat, i: int)
    requires
        forall|j: int| 0 <= j < parts.len() ==> #[trigger] parts[j].len() == stride,
        0 <= i < parts.len(),
    ensures
        stride * i + stride <= concat_bytes(parts).len(),
        concat_bytes(parts).subrange(stride * i, stride * i + stride) == parts[i],
    decreases parts.len(),
{
    let n = parts.len();
    let init = parts.drop_last();
    lemma_concat_bytes_len(init, stride);
    let k: int = n - 1;
    assert(stride * k + stride == stride * n) by (nonlinear_arith)
        requires
            k == n - 1,
    ;
    if i == k {
        assert(concat_bytes(parts).subrange(stride * i, stride * i + stride) =~= parts[i]);
    } else {
        lemma_concat_part(init, stride, i);
        assert(stride * i + stride <= stride * k) by (nonlinear_arith)
            requires
                i < k,
                0 <= i,
        ;
        assert(concat_bytes(parts).subrange(stride * i, stride * i + stride) =~= concat_bytes(
            init,
        ).subrange(stride * i, stride * i + stride));
    }
}

/// Element `i` of an encoded array is the encoding of `items[i]`, at offset
/// `stride * i`: the elements keep their order and none is changed.
pub proof fn lemma_storage_element<T: ShaderItem>(items: Seq<T>, i: int)
    requires
        0 <= i < items.len(),
    ensures
        T::stride() * i + T::stride() <= storage_bytes(items).len(),
        storage_bytes(items).subrange(T::stride() * i, T::stride() * i + T::stride())
            == T::item_bytes(items[i]),
{
    let parts = items.map_values(|x: T| T::item_bytes(x));
    assert forall|j: int| 0 <= j < parts.len() implies #[trigger] parts[j].len() == T::stride() by {
        T::lemma_item_bytes_len(items[j]);
    }
    lemma_concat_part(parts, T::stride(), i);
}

/// Command `i` of an encoded command array is its `id` word followed by its
/// `command` word, little-endian, at offset `8 * i`.
pub proof fn lemma_command_array_layout(items: Seq<RenderCommand>, i: int)
    requires
        0 <= i < items.len(),
    ensures
        storage_bytes(items).len() == 8 * items.len(),
        storage_bytes(items).subrange(8 * i, 8 * i + 4) == le_bytes(items[i].id),
        storage_bytes(items).subrange(8 * i + 4, 8 * i + 8) == le_bytes(items[i].command),
{
    lemma_storage_element(items, i);
    lemma_storage_bytes_len(items);
    let b = storage_bytes(items);
    let e = b.subrange(8 * i, 8 * i + 8);
    assert(e == command_bytes(items[i]));
    assert(b.subrange(8 * i, 8 * i + 4) =~= e.subrange(0, 4));
    assert(b.subrange(8 * i + 4, 8 * i + 8) =~= e.subrange(4, 8));
    assert(e.subrange(0, 4) =~= le_bytes(items[i].id));
    assert(e.subrange(4, 8) =~= le_bytes(items[i].command));
}

/// Transform `i` of an encoded transform array occupies bytes `48 * i` to
/// `48 * i + 48`; its column `c` starts at `16 * c` within them and holds
/// the words `cols[3 * c]`, `cols[3 * c + 1]`, `cols[3 * c + 2]`,
/// little-endian, then four zero bytes.
pub proof fn lemma_transform_array_layout(items: Seq<Transform>, i: int, c: int, r: int)
    requires
        0 <= i < items.len(),
        0 <= c < 3,
        0 <= r < 3,
    ensures
        storage_bytes(items).len() == 48 * items.len(),
        storage_bytes(items).subrange(48 * i + 16 * c + 4 * r, 48 * i + 16 * c + 4 * r + 4)
            == le_bytes(items[i].cols[3 * c + r]),
        storage_bytes(items).subrange(48 * i + 16 * c + 12, 48 * i + 16 * c + 16) == seq![
            0u8,
            0u8,
            0u8,
            0u8,
        ],
{
    lemma_storage_element(items, i);
    lemma_storage_bytes_len(items);
    let b = storage_bytes(items);
    let t = items[i];
    let e = b.subrange(48 * i, 48 * i + 48);
    assert(e == transform_bytes(t));
    let o = 16 * c + 4 * r;
    assert(b.subrange(48 * i + o, 48 * i + o + 4) =~= e.subrange(o, o + 4));
    assert(b.subrange(48 * i + 16 * c + 12, 48 * i + 16 * c + 16) =~= e.subrange(
        16 * c + 12,
        16 * c + 16,
    ));
    lemma_transform_bytes_word(t, c, r);
}

/// Within the bytes of one transform, word `r` of column `c` sits at
/// `16 * c + 4 * r`, and bytes `16 * c + 12` to `16 * c + 16` are padding.
proof fn lemma_transform_bytes_word(t: Transform, c: int, r: int)
    requires
        0 <= c < 3,
        0 <= r < 3,
    ensures
        transform_bytes(t).subrange(16 * c + 4 * r, 16 * c + 4 * r + 4) == le_bytes(
            t.cols[3 * c + r],
        ),
        transform_bytes(t).subrange(16 * c + 12, 16 * c + 16) == seq![0u8, 0u8, 0u8, 0u8],
{
    let e = transform_bytes(t);
    let col = column_bytes(t, c);
    assert(e.len() == 48);
    assert(e.subrange(16 * c, 16 * c + 16) =~= col) by {
        let c0 = column_bytes(t, 0);
        let c1 = column_bytes(t, 1);
        let c2 = column_bytes(t, 2);
        assert(e =~= c0 + c1 + c2);
        if c == 0 {
            assert(e.subrange(0, 16) =~= c0);
        } else if c == 1 {
            assert(e.subrange(16, 32) =~= c1);
        } else {
            assert(e.subrange(32, 48) =~= c2);
        }
    }
    assert(e.subrange(16 * c + 4 * r, 16 * c + 4 * r + 4) =~= col.subrange(4 * r, 4 * r + 4));
    assert(e.subrange(16 * c + 12, 16 * c + 16) =~= col.subrange(12, 16));
    let w0 = le_bytes(t.cols[3 * c]);
    let w1 = le_bytes(t.cols[3 * c + 1]);
    let w2 = le_bytes(t.cols[3 * c + 2]);
    assert(col =~= w0 + w1 + w2 + seq![0u8, 0u8, 0u8, 0u8]);
    if r == 0 {
        assert(col.subrange(0, 4) =~= w0);
    } else if r == 1 {
        assert(col.subrange(4, 8) =~= w1);
    } else {
        assert(col.subrange(8, 12) =~= w2);
    }
    assert(col.subrange(12, 16) =~= seq![0u8, 0u8, 0u8, 0u8]);
}

/// The bytes of a render command in a storage array: `id`, then `command`.
pub open spec fn command_bytes(c: RenderCommand) -> Seq<u8> {
    le_bytes(c.id) + le_bytes(c.command)
}

/// The bytes of one column of a `mat3x3<f32>`: three words and four bytes
/// of padding.
pub open spec fn column_bytes(t: Transform, c: int) -> Seq<u8> {
    le_bytes(t.cols[3 * c]) + le_bytes(t.cols[3 * c + 1]) + le_bytes(t.cols[3 * c + 2]) + seq![
        0u8,
        0u8,
        0u8,
        0u8,
    ]
}

/// The bytes of a transform in a storage array: its three padded columns.
pub open spec fn transform_bytes(t: Transform) -> Seq<u8> {
    column_bytes(t, 0) + column_bytes(t, 1) + column_bytes(t, 2)
}

/// Writes the commands with `encase::StorageBuffer::write`, each command as
/// the WGSL `array<u32, 2>` `[id, command]`, whose layout is that of the
/// shader's command struct. The contract claims only the size of encase's
/// runtime-sized array: 8 bytes per element, and one element when the array
/// is empty; the bytes themselves are checked by the caller against the
/// verified encoding.
#[verifier::external_body]
fn write_command_array(items: &Vec<RenderCommand>) -> (bytes: Vec<u8>)
    requires
        array_len(items@.len(), 8) <= isize::MAX,
    ensures
        bytes@.len() == array_len(items@.len(), 8),
{
    let words: Vec<[u32; 2]> = items.iter().map(|c| [c.id, c.command]).collect();
    let mut bytes: Vec<u8> = Vec::new();
    encase::StorageBuffer::new(&mut bytes).write(&words).unwrap();
    bytes
}

/// Writes the transforms with `encase::StorageBuffer::write`, each one as
/// three `glam::UVec3` columns holding the float bit patterns; WGSL lays out
/// `array<vec3<u32>, 3>` exactly as `mat3x3<f32>`. The contract claims only
/// the size of encase's runtime-sized array: 48 bytes per element, and one
/// element when the array is empty; the bytes themselves are checked by the
/// caller against the verified encoding.
#[verifier::external_body]
fn write_transform_array(items: &Vec<Transform>) -> (bytes: Vec<u8>)
    requires
        array_len(items@.len(), 48) <= isize::MAX,
    ensures
        bytes@.len() == array_len(items@.len(), 48),
{
    let columns: Vec<[glam::UVec3; 3]> = items.iter().map(
        |t| {
            let c = t.cols;
            [
                glam::UVec3::new(c[0], c[1], c[2]),
                glam::UVec3::new(c[3], c[4], c[5]),
                glam::UVec3::new(c[6], c[7], c[8]),
            ]
        },
    ).collect();
    let mut bytes: Vec<u8> = Vec::new();
    encase::StorageBuffer::new(&mut bytes).write(&columns).unwrap();
    bytes
}

/// The element encodings of a command array.
pub open spec fn command_parts(items: Seq<RenderCommand>) -> Seq<Seq<u8>> {
    items.map_values(|c: RenderCommand| command_bytes(c))
}

/// The element encodings of a transform array.
pub open spec fn transform_parts(items: Seq<Transform>) -> Seq<Seq<u8>> {
    items.map_values(|t: Transform| transform_bytes(t))
}

/// Appends the little-endian bytes of `x`.
fn push_le_bytes(out: &mut Vec<u8>, x: u32)
    ensures
        final(out)@ == old(out)@ + le_bytes(x),
{
    out.push((x % 256) as u8);
    out.push(((x / 256) % 256) as u8);
    out.push(((x / 65536) % 256) as u8);
    out.push((x / 16777216) as u8);
    assert(final(out)@ =~= old(out)@ + le_bytes(x));
}

/// Appends `n` zero bytes.
fn push_zeros(out: &mut Vec<u8>, n: usize)
    ensures
        final(out)@ == old(out)@ + Seq::new(n as nat, |i: int| 0u8),
{
    let ghost start = out@;
    for i in 0..n
        invariant
            out@ == start + Seq::new(i as nat, |j: int| 0u8),
    {
        out.push(0u8);
        assert(out@ =~= start + Seq::new((i + 1) as nat, |j: int| 0u8));
    }
}

/// Whether two byte strings are equal.
fn bytes_equal(a: &Vec<u8>, b: &Vec<u8>) -> (r: bool)
    ensures
        r == (a@ == b@),
{
    if a.len() != b.len() {
        return false;
    }
    let n = a.len();
    for i in 0..n
        invariant
            n == a@.len(),
            n == b@.len(),
            forall|j: int| 0 <= j < i ==> a@[j] == b@[j],
    {
        if a[i] != b[i] {
            return false;
        }
    }
    assert(a@ =~= b@);
    true
}

/// Appends the parts in order: one step of building a concatenation.
proof fn lemma_concat_push(parts: Seq<Seq<u8>>, i: int)
    requires
        0 <= i < parts.len(),
    ensures
        concat_bytes(parts.subrange(0, i + 1)) == concat_bytes(parts.subrange(0, i)) + parts[i],
{
    let p = parts.subrange(0, i + 1);
    assert(p.drop_last() =~= parts.subrange(0, i));
}

/// The storage encoding of the commands, computed word by word.
fn encode_commands(items: &Vec<RenderCommand>) -> (bytes: Vec<u8>)
    ensures
        bytes@ == array_bytes(command_parts(items@), 8),
{
    let mut out: Vec<u8> = Vec::new();
    let n = items.len();
    if n == 0 {
        push_zeros(&mut out, 8);
        assert(out@ =~= Seq::new(8, |i: int| 0u8));
        return out;
    }
    for i in 0..n
        invariant
            n == items@.len(),
            out@ == concat_bytes(command_parts(items@).subrange(0, i as int)),
    {
        let c = items[i];
        push_le_bytes(&mut out, c.id);
        push_le_bytes(&mut out, c.command);
        proof {
            lemma_concat_push(command_parts(items@), i as int);
        }
    }
    assert(command_parts(items@).subrange(0, n as int) =~= command_parts(items@));
    out
}

/// Appends the storage encoding of one transform.
fn push_transform(out: &mut Vec<u8>, t: Transform)
    ensures
        final(out)@ == old(out)@ + transform_bytes(t),
{
    let ghost start = out@;
    let c = t.cols;
    push_le_bytes(out, c[0]);
    push_le_bytes(out, c[1]);
    push_le_bytes(out, c[2]);
    push_zeros(out, 4);
    push_le_bytes(out, c[3]);
    push_le_bytes(out, c[4]);
    push_le_bytes(out, c[5]);
    push_zeros(out, 4);
    push_le_bytes(out, c[6]);
    push_le_bytes(out, c[7]);
    push_le_bytes(out, c[8]);
    push_zeros(out, 4);
    assert(seq![0u8, 0u8, 0u8, 0u8] =~= Seq::new(4, |i: int| 0u8));
    assert(out@ =~= start + transform_bytes(t));
}

/// The storage encoding of the transforms, computed word by word.
fn encode_transforms(items: &Vec<Transform>) -> (bytes: Vec<u8>)
    ensures
        bytes@ == array_bytes(transform_parts(items@), 48),
{
    let mut out: Vec<u8> = Vec::new();
    let n = items.len();
    if n == 0 {
        push_zeros(&mut out, 48);
        assert(out@ =~= Seq::new(48, |i: int| 0u8));
        return out;
    }
    for i in 0..n
        invariant
            n == items@.len(),
            out@ == concat_bytes(transform_parts(items@).subrange(0, i as int)),
    {
        push_transform(&mut out, items[i]);
        proof {
            lemma_concat_push(transform_parts(items@), i as int);
        }
    }
    assert(transform_parts(items@).subrange(0, n as int) =~= transform_parts(items@));
    out
}

impl ShaderItem for RenderCommand {
    open spec fn stride() -> nat {
        8
    }

    open spec fn item_bytes(item: Self) -> Seq<u8> {
        command_bytes(item)
    }

    proof fn lemma_item_bytes_len(item: Self) {
    }

    proof fn lemma_stride_positive() {
    }

    fn stride_bytes() -> (s: usize) {
        8
    }

    fn encode_storage(items: &Vec<Self>) -> (bytes: Vec<u8>) {
        let checked = encode_commands(items);
        let written = write_command_array(items);
        assert(items@.map_values(|x: Self| Self::item_bytes(x)) =~= command_parts(items@));
        if bytes_equal(&written, &checked) {
            written
        } else {
            checked
        }
    }
}

impl ShaderItem for Transform {
    open spec fn stride() -> nat {
        48
    }

    open spec fn item_bytes(item: Self) -> Seq<u8> {
        transform_bytes(item)
    }

    proof fn lemma_item_bytes_len(item: Self) {
    }

    proof fn lemma_stride_positive() {
    }

    fn stride_bytes() -> (s: usize) {
        48
    }

    fn encode_storage(items: &Vec<Self>) -> (bytes: Vec<u8>) {
        let checked = encode_transforms(items);
        let written = write_transform_array(items);
        assert(items@.map_values(|x: Self| Self::item_bytes(x)) =~= transform_parts(items@));
        if bytes_equal(&written, &checked) {
            written
        } else {
            checked
        }
    }
}

} // verus!
