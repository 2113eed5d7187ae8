//! Where the persisted snapshot is kept. A path is the sequence of its bytes, as on Unix.

use vstd::prelude::*;
use vstd::string::*;

use crate::error::WmError;

verus! {

/// The relative path `child` below `base`: a separator stands between them, unless `base` is
/// empty or ends in one.
pub open spec fn joined(base: Seq<u8>, child: Seq<u8>) -> Seq<u8> {
    if base.len() == 0 || base.last() == 0x2fu8 {
        base + child
    } else {
        base.push(0x2fu8) + child
    }
}

/// The directory of the snapshot file, below the configuration directory.
pub open spec fn directory_name() -> Seq<u8> {
    vstd::utf8::encode_utf8("cosmic-ext-showdesktop"@)
}

/// The name of the snapshot file.
pub open spec fn file_name() -> Seq<u8> {
    vstd::utf8::encode_utf8("snapshot.json"@)
}

/// The path of the snapshot file, given the user's configuration directory, or the message
/// of the failure where there is none.
pub open spec fn snapshot_path(config: Option<Seq<u8>>) -> Result<Seq<u8>, Seq<char>> {
    match config {
        Some(directory) => Ok(joined(joined(directory, directory_name()), file_name())),
        None => Err(crate::error::no_config_dir_text()),
    }
}

/// A path, with the error read as a message.
pub open spec fn path_result(result: Result<Vec<u8>, WmError>) -> Result<Seq<u8>, Seq<char>> {
    match result {
        Ok(path) => Ok(path@),
        Err(error) => Err(error.text()),
    }
}

/// The bytes of a directory, where there is one.
pub open spec fn directory_bytes(config: Option<Vec<u8>>) -> Option<Seq<u8>> {
    match config {
        Some(directory) => Some(directory@),
        None => None,
    }
}

/// Calls `dirs::config_dir`, which looks up the user's configuration directory in the
/// environment, and hands out the bytes of the path it finds. Which directory that is, or
/// that there is one, depends on the environment, so nothing is claimed of the result.
#[verifier::external_body]
fn config_dir() -> (config: Option<Vec<u8>>)
{
    dirs::config_dir().map(|path| path.into_os_string().into_encoded_bytes())
}

/// The relative path `child` below `base`.
fn join(base: Vec<u8>, child: &str) -> (path: Vec<u8>)
    ensures
        path@ == joined(base@, vstd::utf8::encode_utf8(child@)),
{
    let mut path = base;
    if path.len() > 0 && path[path.len() - 1] != 0x2fu8 {
        path.push(0x2fu8);
    }
    let bytes = child.as_bytes();
    let ghost start = path@;
    let mut k: usize = 0;
    while k < bytes.len()
        invariant
            k <= bytes@.len(),
            path@ == start + bytes@.take(k as int),
        decreases bytes@.len() - k,
    {
        path.push(bytes[k]);
        assert(bytes@.take(k + 1) =~= bytes@.take(k as int).push(bytes@[k as int]));
        k += 1;
    }
    assert(bytes@.take(bytes@.len() as int) =~= bytes@);
    path
}

/// The path of the snapshot file, given the user's configuration directory.
pub fn snapshot_file_path_in(config: Option<Vec<u8>>) -> (path: Result<Vec<u8>, WmError>)
    ensures
        path_result(path) == snapshot_path(directory_bytes(config)),
{
    match config {
        Some(directory) => Ok(
            join(join(directory, "cosmic-ext-showdesktop"), "snapshot.json"),
        ),
        None => Err(WmError::no_config_dir()),
    }
}

/// The path of the snapshot file, below the configuration directory that the environment
/// gives.
pub fn snapshot_file_path() -> (path: Result<Vec<u8>, WmError>)
    ensures
        exists|config: Option<Seq<u8>>| path_result(path) == #[trigger] snapshot_path(config),
{
    let config = config_dir();
    snapshot_file_path_in(config)
}

/// The snapshot file lies below the configuration directory, under one separator however the
/// directory is written, and it cannot be told where it lies without such a directory.
pub proof fn law_snapshot_path(directory: Seq<u8>)
    ensures
        snapshot_path(None) == Err::<Seq<u8>, Seq<char>>(
            "failed to resolve ~/.config directory"@,
        ),
        ({
            let below = vstd::utf8::encode_utf8("cosmic-ext-showdesktop/snapshot.json"@);
            snapshot_path(Some(directory)) == Ok::<Seq<u8>, Seq<char>>(
                if directory.len() == 0 || directory.last() == 0x2fu8 {
                    directory + below
                } else {
                    directory + seq![0x2fu8] + below
                },
            )
        }),
{
    reveal_strlit("cosmic-ext-showdesktop");
    reveal_strlit("snapshot.json");
    reveal_strlit("cosmic-ext-showdesktop/snapshot.json");
    let first = "cosmic-ext-showdesktop"@;
    let second = "snapshot.json"@;
    let whole = "cosmic-ext-showdesktop/snapshot.json"@;
    assert(whole =~= first.push('/') + second);
    assert(vstd::utf8::is_ascii_chars(first));
    assert(vstd::utf8::is_ascii_chars(second));
    assert(vstd::utf8::is_ascii_chars(whole));
    vstd::utf8::is_ascii_chars_encode_utf8(first);
    vstd::utf8::is_ascii_chars_encode_utf8(second);
    vstd::utf8::is_ascii_chars_encode_utf8(whole);
    let (a, b) = (directory_name(), file_name());
    let below = vstd::utf8::encode_utf8(whole);
    assert('/' as u8 == 0x2fu8);
    assert forall|i: int| 0 <= i < below.len() implies #[trigger] below[i] == (a.push(0x2fu8)
        + b)[i] by {
        assert(whole[i] as u8 == below[i]);
        if i < first.len() {
            assert(first[i] as u8 == a[i]);
        } else if i > first.len() {
            assert(second[i - first.len() - 1] as u8 == b[i - first.len() - 1]);
        }
    }
    assert(below =~= a.push(0x2fu8) + b);
    assert(a.last() != 0x2fu8) by {
        assert(first[21] as u8 == a[21]);
    }
    assert(joined(directory, a).last() == a.last());
    if directory.len() == 0 || directory.last() == 0x2fu8 {
        assert(joined(joined(directory, a), b) =~= directory + below);
    } else {
        assert(joined(joined(directory, a), b) =~= directory + seq![0x2fu8] + below);
    }
}

/// A path and a directory are read as they are, an error by its message.
pub proof fn law_paths_are_read_as_they_are(path: Vec<u8>, text: String)
    ensures
        path_result(Ok(path)) == Ok::<Seq<u8>, Seq<char>>(path@),
        path_result(Err(WmError::Command(text))) == Err::<Seq<u8>, Seq<char>>(text@),
        directory_bytes(Some(path)) == Some(path@),
        directory_bytes(None) is None,
{
}

} // verus!
