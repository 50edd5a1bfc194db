//! An open note: its bytes in memory behind a cursor, read, written and
//! sought as a WebDAV client does, and written back to the database on flush.

use vstd::prelude::*;
use vstd::string::StrSliceExecFns;
use vstd::utf8::{valid_utf8, decode_utf8, encode_utf8};
use crate::filesystem::{NoteData, SqliteFs, FsError, FsResult, EntryMeta, opt_str, ostring, spec_store_note, unit_of};
use crate::store::{Db, Call, calls_since, extends, lemma_unchanged};
use crate::timestamp::{parse_stored_time, spec_parse_stored_time};

verus! {

/// Where a seek goes: to an offset from the start, from the end, or from the
/// current position.
#[derive(Clone, Copy, Debug)]
pub enum SeekPos {
    Start(u64),
    End(i64),
    Current(i64),
}

/// A WebDAV file backed by a note: the note, its bytes and a position in
/// them, whether it may be written, and where to write it back.
pub struct SqliteDavFile {
    note: NoteData,
    data: Vec<u8>,
    pos: u64,
    writable: bool,
    fs: Option<SqliteFs>,
    parent_id: Option<String>,
}

/// What reading up to `count` bytes at `pos` gives: the bytes from `pos`
/// (or from the end, where `pos` lies beyond it) up to `count` of them.
pub open spec fn spec_read(data: Seq<u8>, pos: int, count: int) -> Seq<u8> {
    let start = if pos < data.len() {
        pos
    } else {
        data.len() as int
    };
    let n = if count < data.len() - start {
        count
    } else {
        data.len() - start
    };
    data.subrange(start, start + n)
}

/// The bytes after writing `buf` at `pos`: `buf` at `pos..pos + buf.len()`,
/// the other bytes as before, and zeros in any gap between the old end and
/// `pos`. Writing nothing changes nothing.
pub open spec fn spec_write(data: Seq<u8>, pos: int, buf: Seq<u8>) -> Seq<u8> {
    let end = pos + buf.len();
    let len = if end > data.len() {
        end
    } else {
        data.len() as int
    };
    if buf.len() == 0 {
        data
    } else {
        Seq::new(
            len as nat,
            |k: int|
                if pos <= k < end {
                    buf[k - pos]
                } else if k < data.len() {
                    data[k]
                } else {
                    0u8
                },
        )
    }
}

/// What is written can be read back: after writing `buf` at `pos`, reading
/// `buf.len()` bytes at `pos` gives `buf`.
pub proof fn lemma_read_back_written(data: Seq<u8>, pos: nat, buf: Seq<u8>)
    ensures
        spec_read(spec_write(data, pos as int, buf), pos as int, buf.len() as int) == buf,
{
    let w = spec_write(data, pos as int, buf);
    if buf.len() == 0 {
        assert(spec_read(w, pos as int, 0) =~= buf);
    } else {
        assert(w.len() >= pos + buf.len());
        assert(spec_read(w, pos as int, buf.len() as int) =~= buf);
    }
}

/// Writing leaves every byte before the write position and after its end
/// as it was, and the length grows to cover the written bytes only.
pub proof fn lemma_write_keeps_others(data: Seq<u8>, pos: nat, buf: Seq<u8>)
    ensures
        ({
            let w = spec_write(data, pos as int, buf);
            &&& w.len() == (if buf.len() > 0 && pos + buf.len() > data.len() {
                (pos + buf.len()) as int
            } else {
                data.len() as int
            })
            &&& forall|k: int| 0 <= k < data.len() && !(pos <= k < pos + buf.len()) ==> #[trigger] w[k]
                == data[k]
        }),
{
}

/// Reading a whole buffer from its start gives all of it.
pub proof fn lemma_read_all(data: Seq<u8>)
    ensures
        spec_read(data, 0, data.len() as int) == data,
{
    assert(spec_read(data, 0, data.len() as int) =~= data);
}

/// Reading never gives more than asked for, nor anything at or beyond the
/// end.
pub proof fn lemma_read_bounds(data: Seq<u8>, pos: nat, count: nat)
    ensures
        spec_read(data, pos as int, count as int).len() <= count,
        pos >= data.len() ==> spec_read(data, pos as int, count as int).len() == 0,
{
}

/// Where a seek lands from `pos` in `len` bytes, or `None` where it would
/// fall before the start or beyond `u64::MAX`.
pub open spec fn spec_seek(len: int, pos: int, to: SeekPos) -> Option<u64> {
    match to {
        SeekPos::Start(n) => Some(n),
        SeekPos::End(off) => if 0 <= len + off <= u64::MAX {
            Some((len + off) as u64)
        } else {
            None
        },
        SeekPos::Current(off) => if 0 <= pos + off <= u64::MAX {
            Some((pos + off) as u64)
        } else {
            None
        },
    }
}

/// `std::str::from_utf8` followed by `to_string`: the text the bytes encode,
/// or `None` when they are not valid UTF-8.
#[verifier::external_body]
fn utf8_string(bytes: &[u8]) -> (r: Option<String>)
    ensures
        r is Some <==> valid_utf8(bytes@),
        r matches Some(s) ==> s@ == decode_utf8(bytes@),
{
    match std::str::from_utf8(bytes) {
        Ok(s) => Some(s.to_string()),
        Err(_) => None,
    }
}

/// The bytes of a text in UTF-8.
fn text_bytes(s: &String) -> (r: Vec<u8>)
    ensures
        r@ == encode_utf8(s@),
{
    s.as_str().as_bytes_vec()
}

impl SqliteDavFile {
    /// The note the file was opened on.
    pub closed spec fn note_view(&self) -> NoteData {
        self.note
    }

    /// The file's bytes.
    pub closed spec fn data_view(&self) -> Seq<u8> {
        self.data@
    }

    /// The cursor position.
    pub closed spec fn pos_view(&self) -> u64 {
        self.pos
    }

    /// Whether the file may be written.
    pub closed spec fn is_writable(&self) -> bool {
        self.writable
    }

    /// The folder the note is written back to (`None` at the top).
    pub closed spec fn parent_view(&self) -> Option<Seq<char>> {
        ostring(self.parent_id)
    }

    /// Whether the file knows where to write itself back.
    pub closed spec fn has_fs(&self) -> bool {
        self.fs is Some
    }

    /// The database path and the user the file writes itself back for.
    pub closed spec fn fs_view(&self) -> Option<(Seq<char>, Seq<char>)> {
        match self.fs {
            Some(fs) => Some((fs.db_path_view(), fs.user_id_view())),
            None => None,
        }
    }

    /// The cursor position.
    pub fn position(&self) -> (r: u64)
        ensures
            r == self.pos_view(),
    {
        self.pos
    }

    /// The note the file was opened on.
    pub fn note(&self) -> (r: &NoteData)
        ensures
            *r == self.note_view(),
    {
        &self.note
    }

    /// Whether the file may be written.
    pub fn writable(&self) -> (r: bool)
        ensures
            r == self.is_writable(),
    {
        self.writable
    }

    /// A read-only file over `note`, positioned at its start.
    pub fn new(note: NoteData, fs: SqliteFs) -> (r: Self)
        ensures
            r.note_view() == note,
            r.data_view() == encode_utf8(note.content@),
            r.pos_view() == 0,
            !r.is_writable(),
            r.has_fs(),
            r.fs_view() == Some((fs.db_path_view(), fs.user_id_view())),
            r.parent_view() is None,
    {
        let content = text_bytes(&note.content);
        SqliteDavFile { note, data: content, pos: 0, writable: false, fs: Some(fs), parent_id: None }
    }

    /// A writable file over `note` in the folder `parent_id`, positioned at
    /// its start; empty when `truncate` is set.
    pub fn new_writable(note: NoteData, fs: SqliteFs, parent_id: Option<String>, truncate: bool) -> (r:
        Self)
        ensures
            r.note_view() == note,
            r.data_view() == (if truncate {
                Seq::<u8>::empty()
            } else {
                encode_utf8(note.content@)
            }),
            r.pos_view() == 0,
            r.is_writable(),
            r.has_fs(),
            r.fs_view() == Some((fs.db_path_view(), fs.user_id_view())),
            r.parent_view() == ostring(parent_id),
    {
        let content = if truncate {
            Vec::new()
        } else {
            text_bytes(&note.content)
        };
        SqliteDavFile { note, data: content, pos: 0, writable: true, fs: Some(fs), parent_id }
    }

    /// The note's metadata: a file whose length is that of the note's
    /// stored content, with the note's times.
    pub fn metadata(&self) -> (r: EntryMeta)
        ensures
            !r.is_dir,
            r.len == encode_utf8(self.note_view().content@).len(),
            r.modified == spec_parse_stored_time(self.note_view().updated_at),
            r.created == spec_parse_stored_time(self.note_view().created_at),
    {
        let len = self.note.content.as_str().as_bytes().len();
        let modified = parse_stored_time(&self.note.updated_at);
        let created = parse_stored_time(&self.note.created_at);
        EntryMeta { is_dir: false, len: len as u64, modified, created }
    }

    /// Reads up to `count` bytes at the cursor and moves the cursor past
    /// them.
    pub fn read_bytes(&mut self, count: usize) -> (r: Vec<u8>)
        ensures
            r@ == spec_read(old(self).data_view(), old(self).pos_view() as int, count as int),
            final(self).pos_view() == old(self).pos_view() + r@.len(),
            final(self).data_view() == old(self).data_view(),
            final(self).note_view() == old(self).note_view(),
            final(self).is_writable() == old(self).is_writable(),
            final(self).parent_view() == old(self).parent_view(),
            final(self).has_fs() == old(self).has_fs(),
    {
        let len = self.data.len();
        let start: usize = if self.pos < len as u64 {
            self.pos as usize
        } else {
            len
        };
        let n: usize = if count < len - start {
            count
        } else {
            len - start
        };
        let mut out: Vec<u8> = Vec::new();
        let mut i: usize = 0;
        while i < n
            invariant
                start + n <= len == self.data@.len(),
                i <= n,
                out@ == self.data@.subrange(start as int, start + i),
            decreases n - i,
        {
            out.push(self.data[start + i]);
            i = i + 1;
            assert(out@ =~= self.data@.subrange(start as int, start + i));
        }
        self.pos = self.pos + n as u64;
        out
    }

    /// Moves the cursor; the new position, or `GeneralFailure` (and no move)
    /// where it would fall before the start or beyond `u64::MAX`.
    pub fn seek(&mut self, to: SeekPos) -> (r: FsResult<u64>)
        ensures
            r == (match spec_seek(old(self).data_view().len() as int, old(self).pos_view() as int, to) {
                Some(p) => Ok::<u64, FsError>(p),
                None => Err(FsError::GeneralFailure),
            }),
            final(self).pos_view() == (match r {
                Ok(p) => p,
                Err(_) => old(self).pos_view(),
            }),
            final(self).data_view() == old(self).data_view(),
            final(self).note_view() == old(self).note_view(),
            final(self).is_writable() == old(self).is_writable(),
            final(self).parent_view() == old(self).parent_view(),
            final(self).has_fs() == old(self).has_fs(),
    {
        let target = match to {
            SeekPos::Start(n) => Some(n),
            SeekPos::End(off) => (self.data.len() as u64).checked_add_signed(off),
            SeekPos::Current(off) => self.pos.checked_add_signed(off),
        };
        match target {
            Some(p) => {
                self.pos = p;
                Ok(p)
            },
            None => Err(FsError::GeneralFailure),
        }
    }

    /// Writes `buf` at the cursor and moves the cursor past it; refused with
    /// `Forbidden`, changing nothing, when the file is read-only.
    pub fn write_bytes(&mut self, buf: &[u8]) -> (r: FsResult<()>)
        requires
            old(self).is_writable() ==> old(self).pos_view() + buf@.len() <= isize::MAX,
        ensures
            !old(self).is_writable() ==> r == Err::<(), FsError>(FsError::Forbidden),
            !old(self).is_writable() ==> final(self).data_view() == old(self).data_view(),
            !old(self).is_writable() ==> final(self).pos_view() == old(self).pos_view(),
            old(self).is_writable() ==> r is Ok,
            old(self).is_writable() ==> final(self).data_view() == spec_write(old(self).data_view(), old(self).pos_view() as int, buf@),
            old(self).is_writable() ==> final(self).pos_view() == old(self).pos_view() + buf@.len(),
            final(self).note_view() == old(self).note_view(),
            final(self).is_writable() == old(self).is_writable(),
            final(self).parent_view() == old(self).parent_view(),
            final(self).has_fs() == old(self).has_fs(),
    {
        if !self.writable {
            return Err(FsError::Forbidden);
        }
        if buf.len() == 0 {
            return Ok(());
        }
        let ghost d0 = self.data@;
        let p: usize = self.pos as usize;
        let end: usize = p + buf.len();
        while self.data.len() < p
            invariant
                self.note == old(self).note,
                self.writable == old(self).writable,
                self.parent_id == old(self).parent_id,
                self.fs == old(self).fs,
                self.data@.len() >= d0.len(),
                self.data@.len() > d0.len() ==> self.data@.len() <= p,
                forall|k: int| 0 <= k < self.data@.len() ==> #[trigger] self.data@[k] == (if k < d0.len() {
                    d0[k]
                } else {
                    0u8
                }),
            decreases p - self.data@.len(),
        {
            self.data.push(0u8);
        }
        let ghost padded = self.data@;
        let mut i: usize = 0;
        while i < buf.len()
            invariant
                self.note == old(self).note,
                self.writable == old(self).writable,
                self.parent_id == old(self).parent_id,
                self.fs == old(self).fs,
                end == p + buf@.len(),
                i <= buf@.len(),
                p <= padded.len(),
                self.data@.len() == (if p + i > padded.len() {
                    p + i
                } else {
                    padded.len() as int
                }),
                forall|k: int|
                    0 <= k < self.data@.len() ==> #[trigger] self.data@[k] == (if p <= k < p + i {
                        buf@[k - p]
                    } else {
                        padded[k]
                    }),
                forall|k: int| 0 <= k < padded.len() ==> #[trigger] padded[k] == (if k < d0.len() {
                    d0[k]
                } else {
                    0u8
                }),
                padded.len() >= d0.len(),
            decreases buf@.len() - i,
        {
            let k = p + i;
            if k < self.data.len() {
                self.data.set(k, buf[i]);
            } else {
                self.data.push(buf[i]);
            }
            i = i + 1;
        }
        assert(self.data@ =~= spec_write(d0, p as int, buf@));
        self.pos = end as u64;
        Ok(())
    }

    /// Writes the file back into its note: nothing for a read-only file;
    /// `GeneralFailure` when its bytes are not UTF-8 or it has no file
    /// system; otherwise the text the bytes encode is stored as the content
    /// of the note (its folder, title and syntax), for the file's user.
    pub fn flush(&self, db: &mut Db) -> (r: FsResult<()>)
        ensures
            extends(*old(db), *final(db)),
            spec_flush(*self, calls_since(*old(db), *final(db)), r),
    {
        if !self.writable {
            proof {
                lemma_unchanged(*db);
            }
            return Ok(());
        }
        let content = match utf8_string(self.data.as_slice()) {
            Some(s) => s,
            None => {
                proof {
                    lemma_unchanged(*db);
                }
                return Err(FsError::GeneralFailure);
            },
        };
        match &self.fs {
            Some(fs) => {
                let stored = fs.create_or_update_note(
                    db,
                    opt_str(&self.parent_id),
                    self.note.title.as_str(),
                    self.note.syntax.as_str(),
                    content.as_str(),
                );
                proof {
                    let fsv = self.fs_view().unwrap();
                    assert(fsv.1 == fs.user_id_view());
                    assert(spec_store_note(
                        fsv.1,
                        self.parent_view(),
                        self.note.title@,
                        self.note.syntax@,
                        decode_utf8(self.data_view()),
                        calls_since(*old(db), *db),
                        stored,
                    ));
                }
                let ghost sv = stored;
                let res = match stored {
                    Ok(_) => Ok(()),
                    Err(e) => Err(e),
                };
                proof {
                    let fsv = self.fs_view().unwrap();
                    assert(res == unit_of(sv));
                    assert(spec_store_note(
                        fsv.1,
                        self.parent_view(),
                        self.note_view().title@,
                        self.note_view().syntax@,
                        decode_utf8(self.data_view()),
                        calls_since(*old(db), *db),
                        sv,
                    ));
                }
                res
            },
            None => {
                proof {
                    lemma_unchanged(*db);
                }
                Err(FsError::GeneralFailure)
            },
        }
    }
}

/// What flushing `f` hands to the database and gives: nothing for a
/// read-only file; `GeneralFailure` for bytes that are not UTF-8 or a file
/// with no file system; otherwise storing the decoded text as the note.
pub open spec fn spec_flush(f: SqliteDavFile, log: Seq<Call>, r: FsResult<()>) -> bool {
    if !f.is_writable() {
        log.len() == 0 && r is Ok
    } else if !valid_utf8(f.data_view()) {
        log.len() == 0 && r == Err::<(), FsError>(FsError::GeneralFailure)
    } else {
        match f.fs_view() {
            None => log.len() == 0 && r == Err::<(), FsError>(FsError::GeneralFailure),
            Some(fsv) => exists|stored: FsResult<String>|
                #[trigger] spec_store_note(
                    fsv.1,
                    f.parent_view(),
                    f.note_view().title@,
                    f.note_view().syntax@,
                    decode_utf8(f.data_view()),
                    log,
                    stored,
                ) && r == unit_of(stored),
        }
    }
}

} // verus!
