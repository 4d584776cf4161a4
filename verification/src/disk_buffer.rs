//! A buffer of fixed size in front of the file that queues the inputs.
//!
//! The writer keeps the bytes that it is given in memory until they no
//! longer fit, and then hands them on to the file. It does not touch the
//! file system: what it holds as the file's contents is there for the caller
//! to store under the writer's path.

use vstd::prelude::*;

verus! {

/// Writes bytes to a file through a buffer of fixed size.
pub struct DiskBufferWriter {
    path: String,
    capacity: usize,
    data: Vec<u8>,
    file: Vec<u8>,
}

impl DiskBufferWriter {
    /// The path of the file.
    pub closed spec fn path_text(self) -> Seq<char> {
        self.path@
    }

    /// The number of bytes that the buffer can hold.
    pub closed spec fn limit(self) -> nat {
        self.capacity as nat
    }

    /// The bytes that wait in the buffer.
    pub closed spec fn buffered(self) -> Seq<u8> {
        self.data@
    }

    /// The bytes that have gone to the file and have not been taken.
    pub closed spec fn stored(self) -> Seq<u8> {
        self.file@
    }

    /// Every byte that was written and has not been taken, in order.
    pub open spec fn written(self) -> Seq<u8> {
        self.stored() + self.buffered()
    }

    /// What `write` makes of a writer that is given `bytes`: they join the
    /// buffer where they fit; where they do not, the buffer goes to the file
    /// first; and bytes that no buffer of this size can hold follow it there.
    pub open spec fn after_write(self, bytes: Seq<u8>, next: Self) -> bool {
        &&& next.path_text() == self.path_text()
        &&& next.limit() == self.limit()
        &&& if self.buffered().len() + bytes.len() <= self.limit() {
            &&& next.stored() == self.stored()
            &&& next.buffered() == self.buffered() + bytes
        } else if bytes.len() <= self.limit() {
            &&& next.stored() == self.stored() + self.buffered()
            &&& next.buffered() == bytes
        } else {
            &&& next.stored() == self.stored() + self.buffered() + bytes
            &&& next.buffered() == Seq::<u8>::empty()
        }
    }

    /// What `flush` makes of a writer: the buffer has gone to the file.
    pub open spec fn after_flush(self, next: Self) -> bool {
        &&& next.path_text() == self.path_text()
        &&& next.limit() == self.limit()
        &&& next.stored() == self.written()
        &&& next.buffered() == Seq::<u8>::empty()
    }

    /// A writer for the file at `path` with an empty buffer for `capacity` bytes.
    pub fn new(path: &str, capacity: usize) -> (writer: DiskBufferWriter)
        ensures
            writer.path_text() == path@,
            writer.limit() == capacity,
            writer.buffered() == Seq::<u8>::empty(),
            writer.stored() == Seq::<u8>::empty(),
    {
        DiskBufferWriter { path: path.to_owned(), capacity, data: Vec::new(), file: Vec::new() }
    }

    /// The path of the file.
    pub fn path(&self) -> (path: &str)
        ensures
            path@ == self.path_text(),
    {
        self.path.as_str()
    }

    /// The number of bytes that the buffer can hold.
    pub fn capacity(&self) -> (capacity: usize)
        ensures
            capacity == self.limit(),
    {
        self.capacity
    }

    /// Whether the buffer holds nothing.
    pub fn is_empty(&self) -> (empty: bool)
        ensures
            empty == (self.buffered().len() == 0),
    {
        self.data.len() == 0
    }

    /// The bytes that have gone to the file.
    pub fn contents(&self) -> (bytes: &[u8])
        ensures
            bytes@ == self.stored(),
    {
        self.file.as_slice()
    }

    /// Takes the bytes that have gone to the file, for the caller to put
    /// them at the end of the file itself. The buffer is left as it is.
    pub fn take_stored(&mut self) -> (bytes: Vec<u8>)
        ensures
            bytes@ == old(self).stored(),
            final(self).stored() == Seq::<u8>::empty(),
            final(self).buffered() == old(self).buffered(),
            final(self).path_text() == old(self).path_text(),
            final(self).limit() == old(self).limit(),
    {
        let mut bytes: Vec<u8> = Vec::new();
        std::mem::swap(&mut self.file, &mut bytes);
        bytes
    }

    /// Appends `bytes`.
    pub fn write(&mut self, bytes: &[u8])
        ensures
            old(self).after_write(bytes@, *final(self)),
            final(self).written() == old(self).written() + bytes@,
            final(self).buffered().len() <= final(self).limit(),
    {
        if bytes.len() <= self.capacity && self.data.len() <= self.capacity - bytes.len() {
            self.data.extend_from_slice(bytes);
            assert(self.data@ =~= old(self).data@ + bytes@);
            assert(self.written() =~= old(self).written() + bytes@);
        } else {
            let mut data: Vec<u8> = Vec::new();
            if bytes.len() <= self.capacity {
                data.extend_from_slice(bytes);
            }
            let mut file: Vec<u8> = Vec::new();
            file.extend_from_slice(self.file.as_slice());
            file.extend_from_slice(self.data.as_slice());
            if bytes.len() > self.capacity {
                file.extend_from_slice(bytes);
            }
            self.data = data;
            self.file = file;
            proof {
                if bytes@.len() <= old(self).limit() {
                    assert(self.data@ =~= bytes@);
                    assert(self.file@ =~= old(self).file@ + old(self).data@);
                } else {
                    assert(self.data@ =~= Seq::<u8>::empty());
                    assert(self.file@ =~= old(self).file@ + old(self).data@ + bytes@);
                }
                assert(self.written() =~= old(self).written() + bytes@);
            }
        }
    }

    /// Appends the single byte `byte`.
    pub fn write_byte(&mut self, byte: u8)
        ensures
            old(self).after_write(seq![byte], *final(self)),
            final(self).written() == old(self).written().push(byte),
            final(self).buffered().len() <= final(self).limit(),
    {
        let bytes: [u8; 1] = [byte];
        assert(bytes@ =~= seq![byte]);
        self.write(bytes.as_slice());
        assert(old(self).written() + seq![byte] =~= old(self).written().push(byte));
    }

    /// Hands what the buffer holds on to the file.
    pub fn flush(&mut self)
        ensures
            old(self).after_flush(*final(self)),
    {
        let mut file: Vec<u8> = Vec::new();
        file.extend_from_slice(self.file.as_slice());
        file.extend_from_slice(self.data.as_slice());
        self.file = file;
        self.data = Vec::new();
        assert(self.file@ =~= old(self).file@ + old(self).data@);
    }
}

/// After a flush the file holds every byte that was ever written, and a
/// second flush right after the first leaves the file as the first left it.
pub proof fn lemma_flush_twice(
    before: DiskBufferWriter,
    once: DiskBufferWriter,
    twice: DiskBufferWriter,
)
    requires
        before.after_flush(once),
        once.after_flush(twice),
    ensures
        once.stored() == before.written(),
        twice.stored() == once.stored(),
        twice.buffered() == once.buffered(),
{
    assert(once.written() =~= once.stored());
}

} // verus!
