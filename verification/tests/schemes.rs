//! The scheme that does nothing.

use kernel::scheme::null::{Error, NullHandles, NullScheme, OpenResult, Stat, EBADF, MODE_FILE};

fn open(handles: &mut NullHandles) -> usize {
    match NullScheme.kopen(handles) {
        Ok(OpenResult::SchemeLocal { id, internal_flags }) => {
            assert_eq!(internal_flags, 0);
            id
        }
        Err(error) => panic!("{:?}", error),
    }
}

#[test]
fn an_open_handle_can_be_used() {
    let mut handles = NullHandles::new();
    let id = open(&mut handles);
    assert_eq!(id, 1);
    assert_eq!(NullScheme.kread(&handles, id), Ok(0));
    assert_eq!(NullScheme.kwrite(&handles, id, 4096), Ok(4096));
    assert_eq!(NullScheme.fsync(&handles, id), Ok(()));
    assert_eq!(NullScheme.close(&mut handles, id), Ok(()));
}

#[test]
fn a_handle_that_is_not_open_is_refused() {
    let mut handles = NullHandles::new();
    let id = open(&mut handles);
    assert_eq!(NullScheme.close(&mut handles, id), Ok(()));
    let bad = Error { errno: EBADF };
    assert_eq!(NullScheme.close(&mut handles, id), Err(bad));
    assert_eq!(NullScheme.kread(&handles, id), Err(bad));
    assert_eq!(NullScheme.kwrite(&handles, id, 1), Err(bad));
    assert_eq!(NullScheme.fsync(&handles, id), Err(bad));
    let path = NullScheme.kfpath(&handles, id, 9, |_: &[u8]| -> Result<(), Error> {
        panic!("nothing to copy")
    });
    assert_eq!(path, Err(bad));
    let stat = NullScheme.kfstat(&handles, id, |_: &Stat| -> Result<(), Error> {
        panic!("nothing to copy")
    });
    assert_eq!(stat, Err(bad));
}

#[test]
fn handles_are_not_shared() {
    let mut handles = NullHandles::new();
    let first = open(&mut handles);
    let second = open(&mut handles);
    assert_eq!((first, second), (1, 2));
    assert_eq!(NullScheme.close(&mut handles, first), Ok(()));
    assert_eq!(NullScheme.kread(&handles, second), Ok(0));
    assert_eq!(open(&mut handles), 3);
}

#[test]
fn the_path_is_given_as_far_as_it_fits() {
    let mut handles = NullHandles::new();
    let id = open(&mut handles);
    for (room, expected) in [(0, &b""[..]), (3, b"nul"), (5, b"null:"), (64, b"null:")] {
        let copied = NullScheme.kfpath(&handles, id, room, |bytes: &[u8]| {
            assert_eq!(bytes, expected);
            Ok(())
        });
        assert_eq!(copied, Ok(expected.len()));
    }
    let fault = Error { errno: 14 };
    assert_eq!(NullScheme.kfpath(&handles, id, 5, |_: &[u8]| Err(fault)), Err(fault));
}

#[test]
fn every_handle_looks_like_an_empty_file() {
    let mut handles = NullHandles::new();
    let id = open(&mut handles);
    let copied = NullScheme.kfstat(&handles, id, |stat: &Stat| {
        assert_eq!(stat.st_mode, MODE_FILE | 0o666);
        assert_eq!((stat.st_size, stat.st_blksize, stat.st_blocks), (0, 4096, 0));
        let rest = (stat.st_dev, stat.st_ino, stat.st_nlink, stat.st_uid, stat.st_gid);
        assert_eq!(rest, (0, 0, 0, 0, 0));
        assert_eq!((stat.st_mtime, stat.st_atime, stat.st_ctime), (0, 0, 0));
        Ok(())
    });
    assert_eq!(copied, Ok(()));
    let fault = Error { errno: 14 };
    assert_eq!(NullScheme.kfstat(&handles, id, |_: &Stat| Err(fault)), Err(fault));
}

#[test]
fn numbers_are_those_of_the_system_call_interface() {
    assert_eq!(EBADF, syscall::error::EBADF);
    assert_eq!(MODE_FILE, syscall::flag::MODE_FILE);
    let interface = syscall::data::Stat::default();
    assert_eq!((interface.st_nlink, interface.st_mode), (0, 0));
}
