//! Records as the device reads them: their layout and their bytes.

use vstd::prelude::*;
use crate::renderer::instance::InstanceRaw;
use crate::transform::{Matrix4, Vector4};

verus! {

/// The number of words in a record.
pub const INSTANCE_RAW_WORDS: usize = 32;

/// The number of bytes in a record.
pub const INSTANCE_RAW_SIZE: usize = 128;

/// The number of bytes in a column of a matrix.
pub const COLUMN_SIZE: u64 = 16;

/// The place at which a shader finds the first column of the model matrix.
/// The columns behind it, and those of the inverse, follow one by one.
pub const FIRST_INSTANCE_LOCATION: u32 = 5;

/// What a vertex attribute holds.
#[derive(Clone, Copy, Debug, PartialEq, Eq, Structural)]
pub enum VertexFormat {
    /// Two scalars.
    Float32x2,
    /// Three scalars.
    Float32x3,
    /// Four scalars.
    Float32x4,
}

/// Whether a buffer is stepped through once for each vertex or once for
/// each instance.
#[derive(Clone, Copy, Debug, PartialEq, Eq, Structural)]
pub enum VertexStepMode {
    Vertex,
    Instance,
}

/// One input of a vertex shader: where it lies in a record, and where the
/// shader finds it.
#[derive(Clone, Copy, Debug, PartialEq, Eq, Structural)]
pub struct VertexAttribute {
    pub offset: u64,
    pub shader_location: u32,
    pub format: VertexFormat,
}

/// How the device reads the records of a buffer.
#[derive(Debug)]
pub struct VertexBufferLayout {
    /// The number of bytes from one record to the next.
    pub array_stride: u64,
    pub step_mode: VertexStepMode,
    pub attributes: Vec<VertexAttribute>,
}

/// The attribute for column `k` of a record of an instance, counting the
/// columns of the model matrix and then those of its inverse.
pub open spec fn instance_attribute(k: int) -> VertexAttribute {
    VertexAttribute {
        offset: (COLUMN_SIZE * k) as u64,
        shader_location: (FIRST_INSTANCE_LOCATION + k) as u32,
        format: VertexFormat::Float32x4,
    }
}

/// The number of bytes in a vertex of a mesh: position, texture
/// coordinates, normal, tangent and bitangent, fourteen scalars in all.
pub const MODEL_VERTEX_SIZE: u64 = 56;

/// The attributes of a vertex of a mesh, each behind the one before it:
/// position, texture coordinates, normal, tangent, bitangent.
pub open spec fn model_vertex_attributes() -> Seq<VertexAttribute> {
    seq![
        VertexAttribute { offset: 0, shader_location: 0, format: VertexFormat::Float32x3 },
        VertexAttribute { offset: 12, shader_location: 1, format: VertexFormat::Float32x2 },
        VertexAttribute { offset: 20, shader_location: 2, format: VertexFormat::Float32x3 },
        VertexAttribute { offset: 32, shader_location: 3, format: VertexFormat::Float32x3 },
        VertexAttribute { offset: 44, shader_location: 4, format: VertexFormat::Float32x3 },
    ]
}

impl VertexFormat {
    /// The number of bytes that an attribute of this format takes.
    pub open spec fn spec_size(self) -> u64 {
        match self {
            VertexFormat::Float32x2 => 8,
            VertexFormat::Float32x3 => 12,
            VertexFormat::Float32x4 => 16,
        }
    }

    /// The number of bytes that an attribute of this format takes.
    #[verifier::when_used_as_spec(spec_size)]
    pub fn size(self) -> (r: u64)
        ensures
            r == self.spec_size(),
    {
        match self {
            VertexFormat::Float32x2 => 8,
            VertexFormat::Float32x3 => 12,
            VertexFormat::Float32x4 => 16,
        }
    }
}

/// How the device reads a buffer of vertices of a mesh: one vertex of 56
/// bytes after the other, five attributes each, at the places 0 to 4.
pub fn model_vertex_layout() -> (r: VertexBufferLayout)
    ensures
        r.array_stride == MODEL_VERTEX_SIZE,
        r.step_mode == VertexStepMode::Vertex,
        r.attributes@ == model_vertex_attributes(),
{
    let formats = [
        VertexFormat::Float32x3,
        VertexFormat::Float32x2,
        VertexFormat::Float32x3,
        VertexFormat::Float32x3,
        VertexFormat::Float32x3,
    ];
    let mut attributes: Vec<VertexAttribute> = Vec::new();
    let mut offset: u64 = 0;
    let mut k: u32 = 0;
    while k < 5
        invariant
            k <= 5,
            formats@ == seq![
                VertexFormat::Float32x3,
                VertexFormat::Float32x2,
                VertexFormat::Float32x3,
                VertexFormat::Float32x3,
                VertexFormat::Float32x3,
            ],
            attributes@ == model_vertex_attributes().subrange(0, k as int),
            offset == (if k < 5 {
                model_vertex_attributes()[k as int].offset
            } else {
                MODEL_VERTEX_SIZE
            }),
        decreases 5 - k,
    {
        let format = formats[k as usize];
        attributes.push(VertexAttribute { offset, shader_location: k, format });
        proof {
            assert(attributes@ =~= model_vertex_attributes().subrange(0, k + 1));
        }
        offset = offset + format.size();
        k += 1;
    }
    proof {
        assert(attributes@ =~= model_vertex_attributes());
    }
    VertexBufferLayout { array_stride: offset, step_mode: VertexStepMode::Vertex, attributes }
}

/// The four bytes of a word, lowest first where `little`, highest first
/// where not.
pub open spec fn word_bytes(word: u32, little: bool) -> Seq<u8> {
    let b0 = (word & 0xff) as u8;
    let b1 = ((word >> 8) & 0xff) as u8;
    let b2 = ((word >> 16) & 0xff) as u8;
    let b3 = ((word >> 24) & 0xff) as u8;
    if little {
        seq![b0, b1, b2, b3]
    } else {
        seq![b3, b2, b1, b0]
    }
}

/// The bytes of the words, one word after the other.
pub open spec fn words_bytes(words: Seq<u32>, little: bool) -> Seq<u8>
    decreases words.len(),
{
    if words.len() == 0 {
        Seq::empty()
    } else {
        words_bytes(words.drop_last(), little) + word_bytes(words.last(), little)
    }
}

/// The bytes are the words in the byte order of some machine.
pub open spec fn in_memory(words: Seq<u32>, bytes: Seq<u8>) -> bool {
    bytes == words_bytes(words, true) || bytes == words_bytes(words, false)
}

impl Vector4 {
    /// The words of a column: x, y, z, w.
    pub open spec fn words(self) -> Seq<u32> {
        seq![self.x, self.y, self.z, self.w]
    }
}

impl Matrix4 {
    /// The words of a matrix, column after column.
    pub open spec fn words(self) -> Seq<u32> {
        self.x.words() + self.y.words() + self.z.words() + self.w.words()
    }
}

impl InstanceRaw {
    /// The words of a record: the model matrix, then its inverse.
    pub open spec fn words(self) -> Seq<u32> {
        self.model.words() + self.inverse_model.words()
    }

    /// How the device reads a buffer of records: one record of 128 bytes
    /// for each instance, as eight columns of four scalars.
    pub fn layout() -> (r: VertexBufferLayout)
        ensures
            r.array_stride == INSTANCE_RAW_SIZE,
            r.step_mode == VertexStepMode::Instance,
            r.attributes@.len() == 8,
            forall|k: int| 0 <= k < 8 ==> #[trigger] r.attributes@[k] == instance_attribute(k),
    {
        let mut attributes: Vec<VertexAttribute> = Vec::new();
        let mut k: u32 = 0;
        while k < 8
            invariant
                k <= 8,
                attributes@.len() == k,
                forall|j: int| 0 <= j < k ==> #[trigger] attributes@[j] == instance_attribute(j),
            decreases 8 - k,
        {
            attributes.push(
                VertexAttribute {
                    offset: COLUMN_SIZE * (k as u64),
                    shader_location: FIRST_INSTANCE_LOCATION + k,
                    format: VertexFormat::Float32x4,
                },
            );
            k += 1;
        }
        VertexBufferLayout { array_stride: 128, step_mode: VertexStepMode::Instance, attributes }
    }
}

/// The words of the records, one record after the other.
pub open spec fn records_words(records: Seq<InstanceRaw>) -> Seq<u32>
    decreases records.len(),
{
    if records.len() == 0 {
        Seq::empty()
    } else {
        records_words(records.drop_last()) + records.last().words()
    }
}

/// There are four bytes to a word.
pub proof fn lemma_words_bytes_len(words: Seq<u32>, little: bool)
    ensures
        words_bytes(words, little).len() == 4 * words.len(),
    decreases words.len(),
{
    if words.len() > 0 {
        lemma_words_bytes_len(words.drop_last(), little);
    }
}

/// There are thirty-two words to a record.
pub proof fn lemma_records_words_len(records: Seq<InstanceRaw>)
    ensures
        records_words(records).len() == INSTANCE_RAW_WORDS * records.len(),
    decreases records.len(),
{
    if records.len() > 0 {
        lemma_records_words_len(records.drop_last());
    }
}

/// `bytemuck::cast_slice` from `u32` to `u8`, copied into a vector. The
/// cast hands out the memory of the words as bytes: four bytes for each
/// word, in the byte order of the machine. From `u32` to `u8` it cannot
/// fail.
#[verifier::external_body]
fn cast_words(words: &Vec<u32>) -> (bytes: Vec<u8>)
    ensures
        in_memory(words@, bytes@),
{
    bytemuck::cast_slice::<u32, u8>(words.as_slice()).to_vec()
}

fn push_column(out: &mut Vec<u32>, column: Vector4)
    ensures
        final(out)@ == old(out)@ + column.words(),
{
    out.push(column.x);
    out.push(column.y);
    out.push(column.z);
    out.push(column.w);
    proof {
        assert(out@ =~= old(out)@ + column.words());
    }
}

fn push_matrix(out: &mut Vec<u32>, matrix: Matrix4)
    ensures
        final(out)@ == old(out)@ + matrix.words(),
{
    push_column(out, matrix.x);
    push_column(out, matrix.y);
    push_column(out, matrix.z);
    push_column(out, matrix.w);
    proof {
        assert(out@ =~= old(out)@ + matrix.words());
    }
}

/// The words of the records, one record after the other.
pub fn instance_words(records: &Vec<InstanceRaw>) -> (words: Vec<u32>)
    ensures
        words@ == records_words(records@),
{
    let mut out: Vec<u32> = Vec::new();
    let n: usize = records.len();
    let mut i: usize = 0;
    proof {
        assert(records@.subrange(0, 0) =~= Seq::<InstanceRaw>::empty());
    }
    while i < n
        invariant
            i <= n,
            n == records@.len(),
            out@ == records_words(records@.subrange(0, i as int)),
        decreases n - i,
    {
        let ghost before = out@;
        push_matrix(&mut out, records[i].model);
        push_matrix(&mut out, records[i].inverse_model);
        proof {
            let next = records@.subrange(0, i + 1);
            assert(next.drop_last() =~= records@.subrange(0, i as int));
            assert(next.last() == records@[i as int]);
            assert(out@ =~= before + records@[i as int].words());
        }
        i += 1;
    }
    proof {
        assert(records@.subrange(0, n as int) =~= records@);
    }
    out
}

/// The records as the bytes that are written to the device: the words of
/// each record in the byte order of the machine, 128 bytes to a record.
pub fn instance_bytes(records: &Vec<InstanceRaw>) -> (bytes: Vec<u8>)
    ensures
        in_memory(records_words(records@), bytes@),
        bytes@.len() == INSTANCE_RAW_SIZE * records@.len(),
{
    let words = instance_words(records);
    let bytes = cast_words(&words);
    proof {
        lemma_records_words_len(records@);
        lemma_words_bytes_len(words@, true);
        lemma_words_bytes_len(words@, false);
    }
    bytes
}

/// The size in bytes of a buffer with room for `capacity` records, where it
/// fits in 64 bits.
pub fn instance_buffer_size(capacity: usize) -> (size: Option<u64>)
    ensures
        size == (if capacity * INSTANCE_RAW_SIZE <= u64::MAX {
            Some((capacity * INSTANCE_RAW_SIZE) as u64)
        } else {
            None
        }),
{
    let records: u64 = capacity as u64;
    records.checked_mul(128)
}

} // verus!
