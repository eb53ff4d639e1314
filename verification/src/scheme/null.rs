//! A scheme that does nothing, by which the cost of a system call is measured.
//!
//! Opening gives a handle, reading finds the end at once, writing takes
//! everything, and closing gives the handle back.

use std::collections::HashMap;
use vstd::prelude::*;

verus! {

broadcast use vstd::std_specs::hash::group_hash_axioms;

/// Error number of a handle that is not open.
pub const EBADF: i32 = 9;

/// The mode bit of a file.
pub const MODE_FILE: u16 = 0x8000;

/// Mode of every handle: a file that all may read and write.
pub const NULL_MODE: u16 = 0x81b6;

/// Block size of every handle.
pub const NULL_BLKSIZE: u32 = 4096;

/// An error, by its number.
#[derive(Clone, Copy, Debug, PartialEq, Eq, Structural)]
pub struct Error {
    /// The number.
    pub errno: i32,
}

/// What is known of a file.
#[derive(Clone, Copy, Debug, PartialEq, Eq, Structural)]
pub struct Stat {
    /// The device that it is on.
    pub st_dev: u64,
    /// Its number there.
    pub st_ino: u64,
    /// What it is, and who may use it.
    pub st_mode: u16,
    /// Number of its names.
    pub st_nlink: u32,
    /// Its owner.
    pub st_uid: u32,
    /// The group that it belongs to.
    pub st_gid: u32,
    /// Its size in bytes.
    pub st_size: u64,
    /// The block size to use.
    pub st_blksize: u32,
    /// Number of blocks that it takes.
    pub st_blocks: u64,
    /// When it was modified, in seconds.
    pub st_mtime: u64,
    /// The nanoseconds of that.
    pub st_mtime_nsec: u32,
    /// When it was accessed, in seconds.
    pub st_atime: u64,
    /// The nanoseconds of that.
    pub st_atime_nsec: u32,
    /// When its state was changed, in seconds.
    pub st_ctime: u64,
    /// The nanoseconds of that.
    pub st_ctime_nsec: u32,
}

/// What opening gives.
#[derive(Clone, Copy, Debug, PartialEq, Eq, Structural)]
pub enum OpenResult {
    /// A handle of the scheme, with the flags that the kernel keeps for it.
    SchemeLocal {
        /// The handle.
        id: usize,
        /// The flags.
        internal_flags: u32,
    },
}

/// The handles of the scheme.
#[derive(Debug)]
pub struct NullHandles {
    next_id: usize,
    open: HashMap<usize, ()>,
}

/// The next handle to be given out, and the handles that are open.
pub struct NullView {
    /// The next handle.
    pub next_id: usize,
    /// The open handles.
    pub open: Set<usize>,
}

impl View for NullHandles {
    type V = NullView;

    closed spec fn view(&self) -> NullView {
        NullView { next_id: self.next_id, open: self.open@.dom() }
    }
}

impl NullHandles {
    /// No handle is open, and the first to be given out is one.
    pub fn new() -> (handles: Self)
        ensures
            handles@ == no_handles(),
    {
        let handles = NullHandles { next_id: 1, open: HashMap::new() };
        assert(handles@.open =~= Set::<usize>::empty());
        handles
    }
}

/// The handle behind the last one given out. Handles start again from zero behind
/// the last.
pub open spec fn next_handle(id: usize) -> usize {
    if id == usize::MAX {
        0
    } else {
        (id + 1) as usize
    }
}

/// No handle is open, and none was given out.
pub open spec fn no_handles() -> NullView {
    NullView { next_id: 1, open: Set::empty() }
}

/// The handles behind an opening.
pub open spec fn opened(handles: NullView) -> NullView {
    NullView {
        next_id: next_handle(handles.next_id),
        open: handles.open.insert(handles.next_id),
    }
}

/// The handles behind a closing.
pub open spec fn closed(handles: NullView, id: usize) -> NullView {
    NullView { next_id: handles.next_id, open: handles.open.remove(id) }
}

/// The path of every handle: the bytes of `null:`.
pub open spec fn null_path() -> Seq<u8> {
    seq![0x6eu8, 0x75u8, 0x6cu8, 0x6cu8, 0x3au8]
}

/// As much of the path as fits.
pub open spec fn path_part(buf_len: usize) -> Seq<u8> {
    if buf_len < null_path().len() {
        null_path().take(buf_len as int)
    } else {
        null_path()
    }
}

/// What is known of every handle.
pub open spec fn null_stat() -> Stat {
    Stat {
        st_dev: 0,
        st_ino: 0,
        st_mode: NULL_MODE,
        st_nlink: 0,
        st_uid: 0,
        st_gid: 0,
        st_size: 0,
        st_blksize: NULL_BLKSIZE,
        st_blocks: 0,
        st_mtime: 0,
        st_mtime_nsec: 0,
        st_atime: 0,
        st_atime_nsec: 0,
        st_ctime: 0,
        st_ctime_nsec: 0,
    }
}

/// The scheme.
#[derive(Clone, Copy, Debug)]
pub struct NullScheme;

impl NullScheme {
    /// Opens a handle.
    pub fn kopen(&self, handles: &mut NullHandles) -> (result: Result<OpenResult, Error>)
        ensures
            result == Ok::<OpenResult, Error>(
                OpenResult::SchemeLocal { id: old(handles)@.next_id, internal_flags: 0 },
            ),
            final(handles)@ == opened(old(handles)@),
    {
        let id: usize = handles.next_id;
        handles.next_id = id.wrapping_add(1);
        handles.open.insert(id, ());
        assert(handles@.open =~= opened(old(handles)@).open);
        Ok(OpenResult::SchemeLocal { id, internal_flags: 0 })
    }

    /// Reads: the end is reached at once.
    pub fn kread(&self, handles: &NullHandles, id: usize) -> (result: Result<usize, Error>)
        ensures
            result == (if handles@.open.contains(id) {
                Ok(0usize)
            } else {
                Err(Error { errno: EBADF })
            }),
            result matches Err(error) ==> error.errno == 9,
    {
        if !handles.open.contains_key(&id) {
            return Err(Error { errno: EBADF });
        }
        Ok(0)
    }

    /// Writes so many bytes: all are taken.
    pub fn kwrite(&self, handles: &NullHandles, id: usize, buf_len: usize) -> (result: Result<
        usize,
        Error,
    >)
        ensures
            result == (if handles@.open.contains(id) {
                Ok(buf_len)
            } else {
                Err(Error { errno: EBADF })
            }),
            result matches Err(error) ==> error.errno == 9,
    {
        if !handles.open.contains_key(&id) {
            return Err(Error { errno: EBADF });
        }
        Ok(buf_len)
    }

    /// Gives the path of a handle to user space, as much as fits in so many bytes.
    /// `copy` copies bytes there, which may fail.
    pub fn kfpath<F: FnOnce(&[u8]) -> Result<(), Error>>(
        &self,
        handles: &NullHandles,
        id: usize,
        buf_len: usize,
        copy: F,
    ) -> (result: Result<usize, Error>)
        requires
            forall|bytes: &[u8]| call_requires(copy, (bytes,)),
        ensures
            !handles@.open.contains(id) ==> result == Err::<usize, Error>(Error { errno: EBADF }),
            handles@.open.contains(id) ==> exists|bytes: &[u8], copied: Result<(), Error>|
                #[trigger] call_ensures(copy, (bytes,), copied) && bytes@ == path_part(buf_len)
                    && result == (match copied {
                    Ok(_) => Ok(path_part(buf_len).len() as usize),
                    Err(error) => Err(error),
                }),
    {
        if !handles.open.contains_key(&id) {
            return Err(Error { errno: EBADF });
        }
        let path: Vec<u8> = vec![0x6eu8, 0x75u8, 0x6cu8, 0x6cu8, 0x3au8];
        assert(path@ =~= null_path());
        let mut part: Vec<u8> = Vec::new();
        while part.len() < path.len() && part.len() < buf_len
            invariant
                part@.len() <= path@.len(),
                part@.len() <= buf_len,
                part@ == path@.take(part@.len() as int),
            decreases path@.len() - part@.len(),
        {
            let at: usize = part.len();
            part.push(path[at]);
            assert(part@ =~= path@.take(part@.len() as int));
        }
        assert(part@ =~= path_part(buf_len));
        let bytes: &[u8] = part.as_slice();
        match copy(bytes) {
            Ok(_) => Ok(part.len()),
            Err(error) => Err(error),
        }
    }

    /// Gives what is known of a handle to user space. `copy` copies it there,
    /// which may fail.
    pub fn kfstat<F: FnOnce(&Stat) -> Result<(), Error>>(
        &self,
        handles: &NullHandles,
        id: usize,
        copy: F,
    ) -> (result: Result<(), Error>)
        requires
            forall|stat: &Stat| call_requires(copy, (stat,)),
        ensures
            !handles@.open.contains(id) ==> result == Err::<(), Error>(Error { errno: EBADF }),
            handles@.open.contains(id) ==> call_ensures(copy, (&null_stat(),), result),
    {
        if !handles.open.contains_key(&id) {
            return Err(Error { errno: EBADF });
        }
        assert(0x8000u16 | 0x1b6u16 == 0x81b6u16) by (bit_vector);
        let stat = Stat {
            st_dev: 0,
            st_ino: 0,
            st_mode: MODE_FILE | 0o666,
            st_nlink: 0,
            st_uid: 0,
            st_gid: 0,
            st_size: 0,
            st_blksize: NULL_BLKSIZE,
            st_blocks: 0,
            st_mtime: 0,
            st_mtime_nsec: 0,
            st_atime: 0,
            st_atime_nsec: 0,
            st_ctime: 0,
            st_ctime_nsec: 0,
        };
        assert(stat == null_stat());
        copy(&stat)
    }

    /// Writes back what is not: there is nothing.
    pub fn fsync(&self, handles: &NullHandles, id: usize) -> (result: Result<(), Error>)
        ensures
            result == (if handles@.open.contains(id) {
                Ok(())
            } else {
                Err(Error { errno: EBADF })
            }),
            result matches Err(error) ==> error.errno == 9,
    {
        if !handles.open.contains_key(&id) {
            return Err(Error { errno: EBADF });
        }
        Ok(())
    }

    /// Closes a handle.
    pub fn close(&self, handles: &mut NullHandles, id: usize) -> (result: Result<(), Error>)
        ensures
            result == (if old(handles)@.open.contains(id) {
                Ok(())
            } else {
                Err(Error { errno: EBADF })
            }),
            result matches Err(error) ==> error.errno == 9,
            final(handles)@ == closed(old(handles)@, id),
    {
        let removed: Option<()> = handles.open.remove(&id);
        assert(handles@.open =~= closed(old(handles)@, id).open);
        match removed {
            Some(_) => Ok(()),
            None => Err(Error { errno: EBADF }),
        }
    }
}

/// Handles have not started again from zero: those that are open were given out
/// before the next.
pub open spec fn in_first_turn(handles: NullView) -> bool {
    forall|id: usize| #[trigger] handles.open.contains(id) ==> 1 <= id < handles.next_id
}

/// The first turn lasts from the start until the last handle is given out,
/// whatever is opened and closed.
pub proof fn lemma_first_turn_lasts(handles: NullView, id: usize)
    requires
        in_first_turn(handles),
        1 <= handles.next_id,
    ensures
        in_first_turn(no_handles()),
        handles.next_id < usize::MAX ==> in_first_turn(opened(handles)),
        in_first_turn(closed(handles, id)),
{
}

/// In the first turn a handle that is given out is not one that is open, and to
/// close it again leaves the open handles as they were.
pub proof fn lemma_handle_is_fresh(handles: NullView)
    requires
        in_first_turn(handles),
    ensures
        !handles.open.contains(handles.next_id),
        closed(opened(handles), handles.next_id).open == handles.open,
{
    assert(closed(opened(handles), handles.next_id).open =~= handles.open);
}

/// A handle is open from its opening to its closing, and no other handle is
/// concerned.
pub proof fn lemma_handle_lifetime(handles: NullView, id: usize, other: usize)
    requires
        other != handles.next_id,
        other != id,
    ensures
        opened(handles).open.contains(handles.next_id),
        !closed(handles, id).open.contains(id),
        opened(handles).open.contains(other) == handles.open.contains(other),
        closed(handles, id).open.contains(other) == handles.open.contains(other),
{
}

/// Opening gives out the handles one by one, from one on and around behind the
/// last, and closing gives out none.
pub proof fn lemma_handles_are_given_out_in_turn(handles: NullView, id: usize)
    ensures
        no_handles().next_id == 1,
        no_handles().open == Set::<usize>::empty(),
        opened(handles).next_id == (handles.next_id + 1) % (usize::MAX + 1),
        opened(handles).open == handles.open.insert(handles.next_id),
        closed(handles, id).next_id == handles.next_id,
        closed(handles, id).open == handles.open.remove(id),
{
    vstd::arithmetic::div_mod::lemma_mod_self_0(usize::MAX + 1);
    if handles.next_id < usize::MAX {
        vstd::arithmetic::div_mod::lemma_small_mod(
            (handles.next_id + 1) as nat,
            (usize::MAX + 1) as nat,
        );
    }
}

/// As much of the path is handed out as fits, from its start, and all five bytes of
/// it where they fit: what a longer buffer gets starts with what a shorter one does.
pub proof fn lemma_how_much_path_fits(buf_len: usize, longer: usize)
    requires
        buf_len <= longer,
    ensures
        path_part(buf_len).len() == (if buf_len < 5 {
            buf_len as int
        } else {
            5
        }),
        path_part(buf_len).is_prefix_of(path_part(longer)),
        buf_len >= 5 ==> path_part(buf_len) == seq![0x6eu8, 0x75u8, 0x6cu8, 0x6cu8, 0x3au8],
{
    assert(path_part(buf_len) =~= path_part(longer).subrange(0, path_part(buf_len).len() as int));
}

/// Every handle is a file that all may read and write, with blocks of four
/// kibibytes, and nothing else is known of it.
pub proof fn lemma_what_is_known_of_a_handle()
    ensures
        ({
            let stat = null_stat();
            &&& stat.st_mode == 0x8000 + 0o666
            &&& stat.st_blksize == 4096
            &&& stat.st_dev == 0 && stat.st_ino == 0 && stat.st_nlink == 0
            &&& stat.st_uid == 0 && stat.st_gid == 0
            &&& stat.st_size == 0 && stat.st_blocks == 0
            &&& stat.st_mtime == 0 && stat.st_mtime_nsec == 0
            &&& stat.st_atime == 0 && stat.st_atime_nsec == 0
            &&& stat.st_ctime == 0 && stat.st_ctime_nsec == 0
        }),
{
}

} // verus!
