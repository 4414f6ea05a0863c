//! Open files of the in-memory file system: a cursor over a copy of the
//! file's contents, written back to the file when flushed.

use vstd::prelude::*;
use crate::error::FsError;
use crate::fs::InMemoryFs;
use crate::model::node_metadata;
use crate::node::NodeId;
use crate::vfs::{VfsMetadata, VfsOpenOptions};

verus! {

/// How a file was opened.
#[derive(Clone, Copy, Debug, PartialEq, Eq, Structural)]
pub enum OpenFileMode {
    Read,
    Write,
}

/// A position to seek to: from the start, from the end, or from the
/// current position.
#[derive(Clone, Copy, Debug, PartialEq, Eq, Structural)]
pub enum SeekPosition {
    Start(u64),
    End(i64),
    Current(i64),
}

/// The bytes that a read of at most `max` bytes at position `pos` gives:
/// nothing at or past the end.
pub open spec fn cursor_read(data: Seq<u8>, pos: int, max: int) -> Seq<u8> {
    let start = if pos < data.len() { pos } else { data.len() as int };
    let n = if max < data.len() - start { max } else { data.len() - start };
    data.subrange(start, start + n)
}

/// Everything from position `pos` to the end.
pub open spec fn cursor_remaining(data: Seq<u8>, pos: int) -> Seq<u8> {
    if pos < data.len() { data.skip(pos) } else { Seq::empty() }
}

/// The contents after writing `buf` at position `pos`: `buf` covers
/// `pos .. pos + buf.len()`, the old bytes stay elsewhere, and a gap past
/// the old end is filled with zeros.
pub open spec fn cursor_write(data: Seq<u8>, pos: int, buf: Seq<u8>) -> Seq<u8> {
    let len = if pos + buf.len() > data.len() { pos + buf.len() } else { data.len() as int };
    Seq::new(len as nat, |k: int|
        if pos <= k < pos + buf.len() {
            buf[k - pos]
        } else if k < data.len() {
            data[k]
        } else {
            0u8
        })
}

/// The position a seek leads to, when it is neither negative nor past
/// `u64::MAX`.
pub open spec fn seek_target(len: int, pos: int, to: SeekPosition) -> Option<u64> {
    let t = match to {
        SeekPosition::Start(n) => n as int,
        SeekPosition::End(o) => len + o,
        SeekPosition::Current(o) => pos + o,
    };
    if 0 <= t <= u64::MAX { Some(t as u64) } else { None }
}

/// A seek relative to the current position moves from that position: from
/// position `pos`, seeking by `o` leads to `pos + o` when that is a valid
/// position, the same place a seek from the start to `pos + o` leads to;
/// seeking by `0` stays put, and seeking back by `-o` returns to `pos`.
pub proof fn law_seek_current_moves_from_position(len: int, pos: int, o: i64)
    requires
        0 <= pos <= u64::MAX,
        0 <= pos + o <= u64::MAX,
        o > i64::MIN,
    ensures
        seek_target(len, pos, SeekPosition::Current(o)) == Some((pos + o) as u64),
        seek_target(len, pos, SeekPosition::Current(o)) == seek_target(len, pos, SeekPosition::Start((pos + o) as u64)),
        seek_target(len, pos, SeekPosition::Current(0)) == Some(pos as u64),
        seek_target(len, pos + o, SeekPosition::Current((-o) as i64)) == Some(pos as u64),
        seek_target(len, pos + 1, SeekPosition::Current(o)) matches Some(t) ==> t == (pos + o) + 1,
{
}

/// A seek from the start leads to the offset given, whatever the current
/// position; a seek from the end leads to the length plus the offset, the
/// place a seek relative to the current position leads to from the end.
pub proof fn law_seek_start_and_end(len: int, pos: int, other: int, n: u64, o: i64)
    requires
        0 <= len <= u64::MAX,
    ensures
        seek_target(len, pos, SeekPosition::Start(n)) == Some(n),
        seek_target(len, pos, SeekPosition::Start(n)) == seek_target(len, other, SeekPosition::Start(n)),
        0 <= len + o <= u64::MAX ==> seek_target(len, pos, SeekPosition::End(o)) == Some((len + o) as u64),
        seek_target(len, pos, SeekPosition::End(o)) == seek_target(len, len, SeekPosition::Current(o)),
        len + o < 0 ==> seek_target(len, pos, SeekPosition::End(o)) is None,
{
}

/// The smaller of a position and a length.
pub open spec fn clamp_position(pos: u64, len: nat) -> u64 {
    if pos < len { pos } else { len as u64 }
}

/// A cursor over an in-memory buffer.
#[derive(Debug)]
struct Cursor {
    data: Vec<u8>,
    pos: u64,
}

impl Cursor {
    spec fn data(&self) -> Seq<u8> {
        self.data@
    }

    spec fn pos(&self) -> u64 {
        self.pos
    }

    fn new(data: Vec<u8>, pos: u64) -> (c: Self)
        ensures
            c.data() == data@,
            c.pos() == pos,
    {
        Cursor { data, pos }
    }

    fn read(&mut self, max: usize) -> (r: Vec<u8>)
        ensures
            r@ == cursor_read(old(self).data(), old(self).pos() as int, max as int),
            final(self).data() == old(self).data(),
            final(self).pos() == old(self).pos() + r@.len(),
            old(self).data().len() <= usize::MAX,
    {
        let len = self.data.len();
        let start: usize = if self.pos < len as u64 { self.pos as usize } else { len };
        let n: usize = if max < len - start { max } else { len - start };
        let out = vstd::slice::slice_to_vec(vstd::slice::slice_subrange(self.data.as_slice(), start, start + n));
        self.pos = self.pos + n as u64;
        out
    }

    fn read_to_end(&mut self) -> (r: Vec<u8>)
        ensures
            r@ == cursor_remaining(old(self).data(), old(self).pos() as int),
            final(self).data() == old(self).data(),
            final(self).pos() == old(self).pos() + r@.len(),
    {
        let r = self.read(usize::MAX);
        assert(r@ =~= cursor_remaining(old(self).data(), old(self).pos() as int));
        r
    }

    fn write(&mut self, buf: &[u8]) -> (r: Result<usize, FsError>)
        ensures
            match r {
                Ok(n) => {
                    &&& n == buf@.len()
                    &&& final(self).data() == cursor_write(old(self).data(), old(self).pos() as int, buf@)
                    &&& final(self).pos() == old(self).pos() + buf@.len()
                },
                Err(e) => {
                    &&& e == FsError::PositionTooLarge
                    &&& old(self).pos() + buf@.len() > usize::MAX
                    &&& final(self).data() == old(self).data()
                    &&& final(self).pos() == old(self).pos()
                },
            },
    {
        let buf_len = buf.len();
        if self.pos > usize::MAX as u64 {
            return Err(FsError::PositionTooLarge);
        }
        let p = self.pos as usize;
        if p > usize::MAX - buf_len {
            return Err(FsError::PositionTooLarge);
        }
        let ghost old_data = self.data@;
        let ghost padded_len: int = if p > old_data.len() { p as int } else { old_data.len() as int };
        while self.data.len() < p
            invariant
                old_data.len() <= self.data@.len() <= padded_len,
                padded_len == (if p > old_data.len() { p as int } else { old_data.len() as int }),
                forall|k: int| 0 <= k < self.data@.len() ==> #[trigger] self.data@[k] == (if k < old_data.len() { old_data[k] } else { 0u8 }),
            decreases p - self.data@.len(),
        {
            self.data.push(0u8);
        }
        let mut i: usize = 0;
        while i < buf_len
            invariant
                0 <= i <= buf_len,
                buf_len == buf@.len(),
                p + buf_len <= usize::MAX,
                padded_len == (if p > old_data.len() { p as int } else { old_data.len() as int }),
                self.data@.len() == (if p + i > padded_len { p + i } else { padded_len }),
                forall|k: int| 0 <= k < self.data@.len() ==> #[trigger] self.data@[k] == (
                    if p <= k < p + i {
                        buf@[k - p]
                    } else if k < old_data.len() {
                        old_data[k]
                    } else {
                        0u8
                    }),
            decreases buf_len - i,
        {
            let k = p + i;
            if k < self.data.len() {
                self.data[k] = buf[i];
            } else {
                self.data.push(buf[i]);
            }
            i = i + 1;
        }
        self.pos = (p + buf_len) as u64;
        assert(self.data@ =~= cursor_write(old_data, p as int, buf@));
        Ok(buf_len)
    }

    fn seek(&mut self, to: SeekPosition) -> (r: Result<u64, FsError>)
        ensures
            final(self).data() == old(self).data(),
            match seek_target(old(self).data().len() as int, old(self).pos() as int, to) {
                Some(t) => r == Ok::<u64, FsError>(t) && final(self).pos() == t,
                None => r == Err::<u64, FsError>(FsError::InvalidSeek) && final(self).pos() == old(self).pos(),
            },
    {
        let target: i128 = match to {
            SeekPosition::Start(n) => n as i128,
            SeekPosition::End(o) => self.data.len() as i128 + o as i128,
            SeekPosition::Current(o) => self.pos as i128 + o as i128,
        };
        if target < 0 || target > u64::MAX as i128 {
            return Err(FsError::InvalidSeek);
        }
        self.pos = target as u64;
        Ok(self.pos)
    }

    fn reload(&mut self, data: Vec<u8>)
        ensures
            final(self).data() == data@,
            final(self).pos() == clamp_position(old(self).pos(), data@.len()),
    {
        let len = data.len() as u64;
        let pos = if self.pos < len { self.pos } else { len };
        self.data = data;
        self.pos = pos;
    }
}

/// What every open file offers: its metadata, and a reload of its copy of
/// the contents from the file system.
pub trait VfsFileStream {
    /// The node the stream is open on.
    spec fn file_node(&self) -> NodeId;

    /// The stream's copy of the file's contents.
    spec fn buffer(&self) -> Seq<u8>;

    /// The stream's position.
    spec fn position(&self) -> u64;

    /// The metadata of the node the stream is open on.
    fn metadata(&self, fs: &InMemoryFs) -> (r: Result<VfsMetadata, FsError>)
        ensures
            r == node_metadata(fs@.store, self.file_node()),
    ;

    /// Reloads the copy of the contents from the file, keeping the position
    /// unless it is now past the end.
    fn sync_data(&mut self, fs: &InMemoryFs) -> (r: Result<(), FsError>)
        ensures
            final(self).file_node() == old(self).file_node(),
            match fs@.store.lookup(old(self).file_node()) {
                Err(e) => {
                    &&& r == Err::<(), FsError>(e)
                    &&& final(self).buffer() == old(self).buffer()
                    &&& final(self).position() == old(self).position()
                },
                Ok(n) => if n.is_file() {
                    &&& r == Ok::<(), FsError>(())
                    &&& final(self).buffer() == n.data()
                    &&& final(self).position() == clamp_position(old(self).position(), n.data().len())
                } else {
                    &&& r == Err::<(), FsError>(FsError::IsADirectory)
                    &&& final(self).buffer() == old(self).buffer()
                    &&& final(self).position() == old(self).position()
                },
            },
    ;
}

/// A copy of the contents of the file `id`, or the error of looking it up.
fn file_contents(fs: &InMemoryFs, id: NodeId) -> (r: Result<Vec<u8>, FsError>)
    ensures
        match fs@.store.lookup(id) {
            Err(e) => r == Err::<Vec<u8>, FsError>(e),
            Ok(n) => if n.is_file() {
                r matches Ok(v) && v@ == n.data()
            } else {
                r == Err::<Vec<u8>, FsError>(FsError::IsADirectory)
            },
        },
{
    let node = fs.store().get(id)?;
    let file = node.as_file()?;
    Ok(vstd::slice::slice_to_vec(file.read().as_slice()))
}

/// A file opened for reading only.
#[derive(Debug)]
pub struct FileReadHandle {
    cursor: Cursor,
    node_id: NodeId,
}

impl FileReadHandle {
    /// Opens the file `node_id` for reading, at position zero.
    pub fn new(fs: &InMemoryFs, node_id: NodeId) -> (r: Result<Self, FsError>)
        ensures
            match fs@.store.lookup(node_id) {
                Err(e) => r matches Err(e2) && e2 == e,
                Ok(n) => if n.is_file() {
                    r matches Ok(h) && h.file_node() == node_id && h.buffer() == n.data() && h.position() == 0
                } else {
                    r matches Err(e) && e == FsError::IsADirectory
                },
            },
    {
        let data = file_contents(fs, node_id)?;
        Ok(FileReadHandle { cursor: Cursor::new(data, 0), node_id })
    }

    /// Reads at most `max` bytes at the position and moves past them.
    pub fn read(&mut self, max: usize) -> (r: Vec<u8>)
        ensures
            r@ == cursor_read(old(self).buffer(), old(self).position() as int, max as int),
            final(self).buffer() == old(self).buffer(),
            final(self).file_node() == old(self).file_node(),
            final(self).position() == old(self).position() + r@.len(),
    {
        self.cursor.read(max)
    }

    /// Reads everything from the position to the end.
    pub fn read_to_end(&mut self) -> (r: Vec<u8>)
        ensures
            r@ == cursor_remaining(old(self).buffer(), old(self).position() as int),
            final(self).buffer() == old(self).buffer(),
            final(self).file_node() == old(self).file_node(),
            final(self).position() == old(self).position() + r@.len(),
    {
        self.cursor.read_to_end()
    }

    /// Writing is refused: the handle is not open for writing.
    pub fn write(&mut self, buf: &[u8]) -> (r: Result<usize, FsError>)
        ensures
            r == Err::<usize, FsError>(FsError::HandleNotWritable),
            final(self).buffer() == old(self).buffer(),
            final(self).file_node() == old(self).file_node(),
            final(self).position() == old(self).position(),
    {
        Err(FsError::HandleNotWritable)
    }

    /// Moves the position; a target before the start or past `u64::MAX` is refused.
    pub fn seek(&mut self, to: SeekPosition) -> (r: Result<u64, FsError>)
        ensures
            final(self).buffer() == old(self).buffer(),
            final(self).file_node() == old(self).file_node(),
            match seek_target(old(self).buffer().len() as int, old(self).position() as int, to) {
                Some(t) => r == Ok::<u64, FsError>(t) && final(self).position() == t,
                None => r == Err::<u64, FsError>(FsError::InvalidSeek) && final(self).position() == old(self).position(),
            },
    {
        self.cursor.seek(to)
    }

    /// The position.
    pub fn stream_position(&self) -> (p: u64)
        ensures
            p == self.position(),
    {
        self.cursor.pos
    }
}

impl VfsFileStream for FileReadHandle {
    closed spec fn file_node(&self) -> NodeId {
        self.node_id
    }

    closed spec fn buffer(&self) -> Seq<u8> {
        self.cursor.data()
    }

    closed spec fn position(&self) -> u64 {
        self.cursor.pos()
    }

    fn metadata(&self, fs: &InMemoryFs) -> (r: Result<VfsMetadata, FsError>) {
        fs.node_metadata(self.node_id)
    }

    fn sync_data(&mut self, fs: &InMemoryFs) -> (r: Result<(), FsError>) {
        let data = file_contents(fs, self.node_id)?;
        self.cursor.reload(data);
        Ok(())
    }
}

/// A file opened for writing: writes go to the handle's copy, which
/// `flush` stores back into the file.
#[derive(Debug)]
pub struct FileWriteHandle {
    cursor: Cursor,
    node_id: NodeId,
    readable: bool,
}

impl FileWriteHandle {
    /// Whether the handle may be read from.
    pub closed spec fn readable(&self) -> bool {
        self.readable
    }

    /// Opens the file `node_id` for writing: the copy starts empty when
    /// truncating, and the position at its end when appending.
    pub fn new(fs: &InMemoryFs, options: &VfsOpenOptions, node_id: NodeId) -> (r: Result<Self, FsError>)
        ensures
            match fs@.store.lookup(node_id) {
                Err(e) => r matches Err(e2) && e2 == e,
                Ok(n) => if n.is_file() {
                    r matches Ok(h) && {
                        &&& h.file_node() == node_id
                        &&& h.buffer() == (if options.truncate { Seq::<u8>::empty() } else { n.data() })
                        &&& h.position() == (if options.append { h.buffer().len() } else { 0 })
                        &&& h.readable() == options.read
                    }
                } else {
                    r matches Err(e) && e == FsError::IsADirectory
                },
            },
    {
        let content = file_contents(fs, node_id)?;
        let data = if options.truncate { Vec::new() } else { content };
        let pos = if options.append { data.len() as u64 } else { 0 };
        Ok(FileWriteHandle { cursor: Cursor::new(data, pos), node_id, readable: options.read })
    }

    /// Reads at most `max` bytes at the position, if the handle is readable.
    pub fn read(&mut self, max: usize) -> (r: Result<Vec<u8>, FsError>)
        ensures
            final(self).buffer() == old(self).buffer(),
            final(self).file_node() == old(self).file_node(),
            final(self).readable() == old(self).readable(),
            if old(self).readable() {
                r matches Ok(v) && v@ == cursor_read(old(self).buffer(), old(self).position() as int, max as int)
                    && final(self).position() == old(self).position() + v@.len()
            } else {
                r == Err::<Vec<u8>, FsError>(FsError::HandleNotReadable) && final(self).position() == old(self).position()
            },
    {
        if !self.readable {
            return Err(FsError::HandleNotReadable);
        }
        Ok(self.cursor.read(max))
    }

    /// Reads everything from the position to the end, if the handle is readable.
    pub fn read_to_end(&mut self) -> (r: Result<Vec<u8>, FsError>)
        ensures
            final(self).buffer() == old(self).buffer(),
            final(self).file_node() == old(self).file_node(),
            final(self).readable() == old(self).readable(),
            if old(self).readable() {
                r matches Ok(v) && v@ == cursor_remaining(old(self).buffer(), old(self).position() as int)
                    && final(self).position() == old(self).position() + v@.len()
            } else {
                r == Err::<Vec<u8>, FsError>(FsError::HandleNotReadable) && final(self).position() == old(self).position()
            },
    {
        if !self.readable {
            return Err(FsError::HandleNotReadable);
        }
        Ok(self.cursor.read_to_end())
    }

    /// Writes `buf` at the position into the handle's copy and moves past it.
    pub fn write(&mut self, buf: &[u8]) -> (r: Result<usize, FsError>)
        ensures
            final(self).file_node() == old(self).file_node(),
            final(self).readable() == old(self).readable(),
            match r {
                Ok(n) => {
                    &&& n == buf@.len()
                    &&& final(self).buffer() == cursor_write(old(self).buffer(), old(self).position() as int, buf@)
                    &&& final(self).position() == old(self).position() + buf@.len()
                },
                Err(e) => {
                    &&& e == FsError::PositionTooLarge
                    &&& old(self).position() + buf@.len() > usize::MAX
                    &&& final(self).buffer() == old(self).buffer()
                    &&& final(self).position() == old(self).position()
                },
            },
    {
        self.cursor.write(buf)
    }

    /// Moves the position; a target before the start or past `u64::MAX` is refused.
    pub fn seek(&mut self, to: SeekPosition) -> (r: Result<u64, FsError>)
        ensures
            final(self).buffer() == old(self).buffer(),
            final(self).file_node() == old(self).file_node(),
            final(self).readable() == old(self).readable(),
            match seek_target(old(self).buffer().len() as int, old(self).position() as int, to) {
                Some(t) => r == Ok::<u64, FsError>(t) && final(self).position() == t,
                None => r == Err::<u64, FsError>(FsError::InvalidSeek) && final(self).position() == old(self).position(),
            },
    {
        self.cursor.seek(to)
    }

    /// The position.
    pub fn stream_position(&self) -> (p: u64)
        ensures
            p == self.position(),
    {
        self.cursor.pos
    }

    /// Stores the handle's copy as the contents of its file.
    pub fn flush(&self, fs: &mut InMemoryFs) -> (r: Result<(), FsError>)
        requires
            old(fs).wf(),
        ensures
            final(fs).wf(),
            final(fs)@.root == old(fs)@.root,
            final(fs)@.current_dir == old(fs)@.current_dir,
            match old(fs)@.store.lookup(self.file_node()) {
                Err(e) => r == Err::<(), FsError>(e) && final(fs)@.store == old(fs)@.store,
                Ok(n) => if n.is_file() {
                    &&& r == Ok::<(), FsError>(())
                    &&& final(fs)@.store == old(fs)@.store.with_node(self.file_node().index as int, n.with_data(self.buffer()))
                } else {
                    r == Err::<(), FsError>(FsError::IsADirectory) && final(fs)@.store == old(fs)@.store
                },
            },
    {
        let data = vstd::slice::slice_to_vec(self.cursor.data.as_slice());
        fs.replace_file(self.node_id, data)
    }
}

impl VfsFileStream for FileWriteHandle {
    closed spec fn file_node(&self) -> NodeId {
        self.node_id
    }

    closed spec fn buffer(&self) -> Seq<u8> {
        self.cursor.data()
    }

    closed spec fn position(&self) -> u64 {
        self.cursor.pos()
    }

    fn metadata(&self, fs: &InMemoryFs) -> (r: Result<VfsMetadata, FsError>) {
        fs.node_metadata(self.node_id)
    }

    fn sync_data(&mut self, fs: &InMemoryFs) -> (r: Result<(), FsError>) {
        let data = file_contents(fs, self.node_id)?;
        self.cursor.reload(data);
        Ok(())
    }
}

/// A file opened by `InMemoryFs::open`, in the mode the options asked for.
#[derive(Debug)]
pub enum ImfsFile {
    Read(FileReadHandle),
    Write(FileWriteHandle),
}

impl ImfsFile {
    /// The mode the file was opened in.
    pub open spec fn mode(&self) -> OpenFileMode {
        match self {
            ImfsFile::Read(_) => OpenFileMode::Read,
            ImfsFile::Write(_) => OpenFileMode::Write,
        }
    }

    /// The node the file is open on.
    pub open spec fn node(&self) -> NodeId {
        match self {
            ImfsFile::Read(h) => h.file_node(),
            ImfsFile::Write(h) => h.file_node(),
        }
    }

    /// The file's copy of the contents.
    pub open spec fn contents(&self) -> Seq<u8> {
        match self {
            ImfsFile::Read(h) => h.buffer(),
            ImfsFile::Write(h) => h.buffer(),
        }
    }

    /// The file's position.
    pub open spec fn pos(&self) -> u64 {
        match self {
            ImfsFile::Read(h) => h.position(),
            ImfsFile::Write(h) => h.position(),
        }
    }
}

} // verus!
