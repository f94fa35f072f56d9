use vstd::prelude::*;

verus! {

/// A handle to one allocation of device memory.
///
/// `id` tells allocations apart, `size` is the length of the allocation in
/// bytes and `usage` holds the usage bits with which it was made.
#[derive(Clone, Copy, Debug, PartialEq, Eq, Structural)]
pub struct Buffer {
    pub id: u64,
    pub size: u64,
    pub usage: u32,
}

/// A handle to a compiled compute pipeline.
#[derive(Clone, Copy, Debug, PartialEq, Eq, Structural)]
pub struct ComputePipeline {
    pub id: u64,
}

/// How the device is to look after its submissions.
#[derive(Clone, Copy, Debug, PartialEq, Eq, Structural)]
pub enum Maintain {
    /// Look once and come back at once.
    Poll,
    /// Come back only when nothing is in flight any more.
    Wait,
}

/// What the device answered when it was asked to look after its submissions.
#[derive(Clone, Copy, Debug, PartialEq, Eq, Structural)]
pub enum MaintainResult {
    /// Nothing was in flight when the device looked.
    SubmissionQueueEmpty,
    /// The device looked, and has taken up work that may still be in flight.
    Processing,
}

/// One command of a batch. The device carries the commands of a batch out
/// in the order in which they were recorded.
#[derive(Debug)]
pub enum Command {
    /// Write `data` to the start of `buffer`.
    WriteBuffer { buffer: Buffer, data: Vec<u8> },
    /// Run `pipeline` over `workgroups` groups; `bindings[i]` is bound at index `i`.
    Dispatch { pipeline: ComputePipeline, bindings: Vec<Buffer>, workgroups: [u32; 3] },
    /// Copy the first `size` bytes of `source` to the start of `destination`.
    CopyBufferToBuffer { source: Buffer, destination: Buffer, size: u64 },
}

/// The mathematical content of a [`Command`].
pub enum CommandView {
    WriteBuffer { buffer: Buffer, data: Seq<u8> },
    Dispatch { pipeline: ComputePipeline, bindings: Seq<Buffer>, workgroups: Seq<u32> },
    CopyBufferToBuffer { source: Buffer, destination: Buffer, size: u64 },
}

impl View for Command {
    type V = CommandView;

    open spec fn view(&self) -> CommandView {
        match self {
            Command::WriteBuffer { buffer, data } => CommandView::WriteBuffer {
                buffer: *buffer,
                data: data@,
            },
            Command::Dispatch { pipeline, bindings, workgroups } => CommandView::Dispatch {
                pipeline: *pipeline,
                bindings: bindings@,
                workgroups: workgroups@,
            },
            Command::CopyBufferToBuffer { source, destination, size } => CommandView::CopyBufferToBuffer {
                source: *source,
                destination: *destination,
                size: *size,
            },
        }
    }
}

/// The contents of a batch of commands.
pub open spec fn commands_view(commands: Seq<Command>) -> Seq<CommandView> {
    commands.map_values(|command: Command| command@)
}

/// What the device is to allocate for one buffer of a worker.
#[derive(Debug)]
pub struct Allocation {
    /// The name under which the buffer was added.
    pub label: String,
    pub size: u64,
    pub usage: u32,
    /// The bytes with which the allocation starts, if it was added with data.
    pub contents: Option<Vec<u8>>,
    pub mapped_at_creation: bool,
}

/// The mathematical content of an [`Allocation`].
pub struct AllocationView {
    pub label: Seq<char>,
    pub size: u64,
    pub usage: u32,
    pub contents: Option<Seq<u8>>,
    pub mapped_at_creation: bool,
}

/// The bytes that an allocation is to start with, if any.
pub open spec fn contents_view(contents: Option<Vec<u8>>) -> Option<Seq<u8>> {
    match contents {
        Some(bytes) => Some(bytes@),
        None => None,
    }
}

impl View for Allocation {
    type V = AllocationView;

    open spec fn view(&self) -> AllocationView {
        AllocationView {
            label: self.label@,
            size: self.size,
            usage: self.usage,
            contents: contents_view(self.contents),
            mapped_at_creation: self.mapped_at_creation,
        }
    }
}

/// The usage bit of a buffer that can be mapped for reading.
pub const MAP_READ: u32 = 0x1;

/// The usage bit of a buffer that can be copied from.
pub const COPY_SRC: u32 = 0x4;

/// The usage bit of a buffer that can be copied or written to.
pub const COPY_DST: u32 = 0x8;

/// The usage bit of a buffer that a pass can bind as a uniform.
pub const UNIFORM: u32 = 0x40;

/// The usage bit of a buffer that a pass can bind as storage.
pub const STORAGE: u32 = 0x80;

/// The usage bits that the caller asked to add to every buffer: none for `None`.
pub open spec fn extra_bits(extra: Option<u32>) -> u32 {
    match extra {
        Some(bits) => bits,
        None => 0,
    }
}

/// The usage of a uniform buffer.
pub open spec fn uniform_usage(extra: Option<u32>) -> u32 {
    COPY_DST | UNIFORM | extra_bits(extra)
}

/// The usage of a storage buffer that passes only read.
pub open spec fn storage_usage(extra: Option<u32>) -> u32 {
    COPY_DST | STORAGE | extra_bits(extra)
}

/// The usage of a storage buffer that passes read and write.
pub open spec fn rw_storage_usage(extra: Option<u32>) -> u32 {
    COPY_DST | COPY_SRC | STORAGE | extra_bits(extra)
}

/// The usage of the host-readable mirror of a staging pair.
pub open spec fn mirror_usage() -> u32 {
    MAP_READ | COPY_DST
}

/// The size that the device gives a buffer made from `len` bytes of data:
/// `len` rounded up to the next multiple of four, and nothing for no data.
pub open spec fn initialized_size(len: nat) -> nat {
    ((len + 3) / 4) * 4
}

/// Reads `wgpu::BufferUsages::MAP_READ`, which wgpu declares as bit 0, and
/// hands back its bits.
#[verifier::external_body]
pub(crate) fn map_read_bits() -> (bits: u32)
    ensures
        bits == MAP_READ,
{
    wgpu::BufferUsages::MAP_READ.bits()
}

/// Reads `wgpu::BufferUsages::COPY_SRC`, which wgpu declares as bit 2, and
/// hands back its bits.
#[verifier::external_body]
pub(crate) fn copy_src_bits() -> (bits: u32)
    ensures
        bits == COPY_SRC,
{
    wgpu::BufferUsages::COPY_SRC.bits()
}

/// Reads `wgpu::BufferUsages::COPY_DST`, which wgpu declares as bit 3, and
/// hands back its bits.
#[verifier::external_body]
pub(crate) fn copy_dst_bits() -> (bits: u32)
    ensures
        bits == COPY_DST,
{
    wgpu::BufferUsages::COPY_DST.bits()
}

/// Reads `wgpu::BufferUsages::UNIFORM`, which wgpu declares as bit 6, and
/// hands back its bits.
#[verifier::external_body]
pub(crate) fn uniform_bits() -> (bits: u32)
    ensures
        bits == UNIFORM,
{
    wgpu::BufferUsages::UNIFORM.bits()
}

/// Reads `wgpu::BufferUsages::STORAGE`, which wgpu declares as bit 7, and
/// hands back its bits.
#[verifier::external_body]
pub(crate) fn storage_bits() -> (bits: u32)
    ensures
        bits == STORAGE,
{
    wgpu::BufferUsages::STORAGE.bits()
}

/// Reads `wgpu::COPY_BUFFER_ALIGNMENT`, the unit in which the device sizes
/// and copies buffers, which wgpu declares as 4.
#[verifier::external_body]
pub(crate) fn copy_buffer_alignment() -> (unit: u64)
    ensures
        unit == 4,
{
    wgpu::COPY_BUFFER_ALIGNMENT
}

/// The usage of a buffer whose own bits are `base`, with the bits that the
/// caller asked to add to every buffer.
pub fn with_extra(base: u32, extra: Option<u32>) -> (usage: u32)
    ensures
        usage == base | extra_bits(extra),
{
    match extra {
        Some(bits) => base | bits,
        None => {
            assert(base | 0u32 == base) by (bit_vector);
            base
        },
    }
}

/// The size that the device gives a buffer made from `len` bytes of data.
pub fn size_of_initialized(len: u64) -> (size: u64)
    requires
        len + 3 <= u64::MAX,
    ensures
        size == initialized_size(len as nat),
        size >= len,
        size % 4 == 0,
        len == 0 <==> size == 0,
{
    let unit = copy_buffer_alignment();
    let units = (len + (unit - 1)) / unit;
    units * unit
}

} // verus!
