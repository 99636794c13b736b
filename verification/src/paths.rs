//! Where things are kept. Paths are bytes, as Unix has them; the values of
//! environment variables and the platform's directories come in as arguments.

use crate::ids;
use crate::ids::{uuid_text, Uuid};
use crate::text;
use crate::text::{bytes_of, push_decimal};
use vstd::prelude::*;
use vstd::utf8::*;

verus! {

/// A path below another: the two with a slash between them, unless the first is
/// empty or ends in one.
pub open spec fn joined(base: Seq<u8>, name: Seq<u8>) -> Seq<u8> {
    if base.len() == 0 || base.last() == 0x2f {
        base + name
    } else {
        base.push(0x2f) + name
    }
}

/// A path below another.
pub fn join(base: Vec<u8>, name: &str) -> (path: Vec<u8>)
    ensures
        path@ == joined(base@, encode_utf8(name@)),
{
    let mut path = base;
    if path.len() > 0 && path[path.len() - 1] != 0x2f {
        path.push(0x2f);
    }
    let mut rest = bytes_of(name.as_bytes());
    path.append(&mut rest);
    path
}

/// The name of the file that a session is stored in.
pub open spec fn session_file(session_id: Uuid) -> Seq<char> {
    ids::hyphenated(session_id) + ".json"@
}

/// The name of the file that a session is written to first.
pub open spec fn session_temp_file(session_id: Uuid) -> Seq<char> {
    ids::hyphenated(session_id) + ".json.tmp"@
}

/// Where sessions are stored: a directory with a file for each.
pub struct FsPersistenceBackend {
    pub dir: Vec<u8>,
}

impl FsPersistenceBackend {
    pub fn new(dir: Vec<u8>) -> (backend: Self)
        ensures
            backend.dir == dir,
    {
        FsPersistenceBackend { dir }
    }

    /// The file that a session is stored in.
    pub fn final_path(&self, session_id: Uuid) -> (path: Vec<u8>)
        ensures
            path@ == joined(self.dir@, encode_utf8(session_file(session_id))),
    {
        let mut name = uuid_text(session_id);
        name.append(".json");
        join(bytes_of(self.dir.as_slice()), name.as_str())
    }

    /// The file that a session is written to before it takes the place of the
    /// stored one.
    pub fn tmp_path(&self, session_id: Uuid) -> (path: Vec<u8>)
        ensures
            path@ == joined(self.dir@, encode_utf8(session_temp_file(session_id))),
    {
        let mut name = uuid_text(session_id);
        name.append(".json.tmp");
        join(bytes_of(self.dir.as_slice()), name.as_str())
    }

    /// Whether a file of this name in the directory holds a stored session: the
    /// name has something before the extension `json`.
    pub fn holds_session(name: &[u8]) -> (yes: bool)
        ensures
            yes == is_session_file(name@),
    {
        let n: usize = name.len();
        let yes: bool = n > 5 && name[n - 5] == 0x2e && name[n - 4] == 0x6a && name[n - 3] == 0x73
            && name[n - 2] == 0x6f && name[n - 1] == 0x6e;
        proof {
            let extension = seq![0x2eu8, 0x6a, 0x73, 0x6f, 0x6e];
            if n > 5 {
                let tail = name@.skip(n - 5);
                assert(tail[0] == name@[n - 5] && tail[1] == name@[n - 4] && tail[2] == name@[n - 3]
                    && tail[3] == name@[n - 2] && tail[4] == name@[n - 1]);
                if yes {
                    assert(tail =~= extension);
                }
            }
        }
        yes
    }
}

/// Whether a file name has something before the extension `json`.
pub open spec fn is_session_file(name: Seq<u8>) -> bool {
    name.len() > 5 && name.skip(name.len() - 5) == seq![0x2eu8, 0x6a, 0x73, 0x6f, 0x6e]
}

/// The path of a row of names, each below the one before.
pub open spec fn below(base: Seq<u8>, first: Seq<char>, second: Seq<char>) -> Seq<u8> {
    joined(joined(base, encode_utf8(first)), encode_utf8(second))
}

/// A path that may be missing, as a value.
pub open spec fn optional_path(path: Option<Vec<u8>>) -> Option<Seq<u8>> {
    match path {
        Some(path) => Some(path@),
        None => None,
    }
}

/// Where sessions are stored.
pub open spec fn sessions_path(
    state_dir: Option<Seq<u8>>,
    data_local_dir: Option<Seq<u8>>,
) -> Seq<u8> {
    below(
        match state_dir {
            Some(dir) => dir,
            None => match data_local_dir {
                Some(dir) => dir,
                None => seq![0x2eu8],
            },
        },
        "tymux"@,
        "sessions"@,
    )
}

/// Where the configuration is.
pub open spec fn config_path(
    xdg_config_home: Option<Seq<u8>>,
    config_dir: Option<Seq<u8>>,
) -> Option<Seq<u8>> {
    let base = if xdg_config_home is Some {
        xdg_config_home
    } else {
        config_dir
    };
    match base {
        Some(dir) => Some(below(dir, "tymux"@, "config.toml"@)),
        None => None,
    }
}

/// Where sessions are stored: in `tymux/sessions` below the platform's directory
/// for state, or else for local data, or else below the current one.
pub fn default_sessions_dir(state_dir: Option<Vec<u8>>, data_local_dir: Option<Vec<u8>>) -> (path:
    Vec<u8>)
    ensures
        path@ == sessions_path(optional_path(state_dir), optional_path(data_local_dir)),
{
    let base: Vec<u8> = match state_dir {
        Some(dir) => dir,
        None => match data_local_dir {
            Some(dir) => dir,
            None => {
                let here: Vec<u8> = vec![0x2e];
                assert(here@ =~= seq![0x2eu8]);
                here
            },
        },
    };
    join(join(base, "tymux"), "sessions")
}

/// The configuration file: `tymux/config.toml` below the directory that
/// `XDG_CONFIG_HOME` names, or else below the platform's for configuration.
pub fn default_config_path(xdg_config_home: Option<Vec<u8>>, config_dir: Option<Vec<u8>>) -> (path:
    Option<Vec<u8>>)
    ensures
        optional_path(path) == config_path(
            optional_path(xdg_config_home),
            optional_path(config_dir),
        ),
{
    let base: Option<Vec<u8>> = match xdg_config_home {
        Some(dir) => Some(dir),
        None => config_dir,
    };
    match base {
        Some(dir) => Some(join(join(dir, "tymux"), "config.toml")),
        None => None,
    }
}

/// Whether a variable is set to something.
pub open spec fn is_set(value: Option<Seq<u8>>) -> bool {
    value matches Some(value) && value.len() > 0
}

/// The daemon's socket.
pub open spec fn socket_path(
    xdg_runtime_dir: Option<Seq<u8>>,
    tmpdir: Option<Seq<u8>>,
    uid: u32,
) -> Seq<u8> {
    if is_set(xdg_runtime_dir) {
        below(xdg_runtime_dir->0, "tymuxd"@, "tymuxd.sock"@)
    } else {
        below(
            if is_set(tmpdir) {
                tmpdir->0
            } else {
                encode_utf8("/tmp"@)
            },
            "tymuxd-"@ + text::decimal(uid as nat),
            "tymuxd.sock"@,
        )
    }
}

/// The daemon's socket: `tymuxd/tymuxd.sock` below the directory that
/// `XDG_RUNTIME_DIR` names, or else `tymuxd.sock` in a directory of the user's
/// own below the one that `TMPDIR` names, or below `/tmp`. A variable that is
/// empty counts as not set.
pub fn default_uds_socket_path(
    xdg_runtime_dir: Option<Vec<u8>>,
    tmpdir: Option<Vec<u8>>,
    uid: u32,
) -> (path: Vec<u8>)
    ensures
        path@ == socket_path(optional_path(xdg_runtime_dir), optional_path(tmpdir), uid),
{
    if let Some(dir) = xdg_runtime_dir {
        if dir.len() > 0 {
            return join(join(dir, "tymuxd"), "tymuxd.sock");
        }
    }
    let mut base: Vec<u8> = bytes_of("/tmp".as_bytes());
    if let Some(dir) = tmpdir {
        if dir.len() > 0 {
            base = dir;
        }
    }
    let mut own: String = "tymuxd-".to_owned();
    push_decimal(&mut own, uid as u64);
    join(join(base, own.as_str()), "tymuxd.sock")
}

proof fn lemma_ascii_bytes(text: Seq<char>, i: int)
    requires
        is_ascii_chars(text),
        0 <= i < text.len(),
    ensures
        encode_utf8(text).len() == text.len(),
        encode_utf8(text)[i] == text[i] as u8,
{
    is_ascii_chars_encode_utf8(text);
    assert(text[i] as u8 == encode_utf8(text)[i]);
}

proof fn lemma_file_name_is_ascii(session_id: Uuid, ending: Seq<char>)
    requires
        is_ascii_chars(ending),
    ensures
        is_ascii_chars(ids::hyphenated(session_id) + ending),
        ids::hyphenated(session_id).len() == 36,
{
    ids::lemma_text_is_ascii(session_id);
    is_ascii_chars_concat(
        ids::hyphenated(session_id) + ending,
        ids::hyphenated(session_id),
        ending,
    );
}

/// The file that a session is stored in is recognized as such; the one that it
/// is written to first is not, so that what an interrupted write leaves behind
/// is never loaded.
pub proof fn lemma_only_stored_files_are_recognized(session_id: Uuid)
    ensures
        is_session_file(encode_utf8(session_file(session_id))),
        !is_session_file(encode_utf8(session_temp_file(session_id))),
{
    let stored = session_file(session_id);
    let temp = session_temp_file(session_id);
    reveal_strlit(".json");
    reveal_strlit(".json.tmp");
    lemma_file_name_is_ascii(session_id, ".json"@);
    lemma_file_name_is_ascii(session_id, ".json.tmp"@);
    let name = encode_utf8(stored);
    assert forall|i: int| 36 <= i < 41 implies #[trigger] name[i] == ".json"@[i - 36] as u8 by {
        lemma_ascii_bytes(stored, i);
        assert(stored[i] == ".json"@[i - 36]);
    }
    lemma_ascii_bytes(stored, 0);
    assert(name.skip(36) =~= seq![0x2eu8, 0x6a, 0x73, 0x6f, 0x6e]);
    lemma_ascii_bytes(temp, 44);
    let other = encode_utf8(temp);
    assert(other.skip(40)[4] == other[44]);
    assert(temp[44] == 'p');
}

/// Different sessions are stored in different files.
pub proof fn lemma_sessions_have_their_own_files(dir: Seq<u8>, a: Uuid, b: Uuid)
    requires
        joined(dir, encode_utf8(session_file(a))) == joined(dir, encode_utf8(session_file(b))),
    ensures
        a == b,
{
    let one = encode_utf8(session_file(a));
    let two = encode_utf8(session_file(b));
    let front = if dir.len() == 0 || dir.last() == 0x2f {
        dir
    } else {
        dir.push(0x2f)
    };
    assert((front + one).skip(front.len() as int) =~= one);
    assert((front + two).skip(front.len() as int) =~= two);
    encode_utf8_decode_utf8(session_file(a));
    encode_utf8_decode_utf8(session_file(b));
    ids::lemma_text_is_ascii(a);
    ids::lemma_text_is_ascii(b);
    assert(session_file(a).take(36) =~= ids::hyphenated(a));
    assert(session_file(b).take(36) =~= ids::hyphenated(b));
    ids::lemma_text_tells_ids_apart(a, b);
}

/// A path below another starts with the other and ends in the name, with one slash
/// between the two where the first has something in it that does not end in one.
pub proof fn lemma_one_slash_between(base: Seq<u8>, name: Seq<u8>)
    ensures
        joined(base, name).take(base.len() as int) == base,
        joined(base, name).skip(joined(base, name).len() - name.len()) == name,
        base.len() > 0 && base.last() != '/' as u8 ==> {
            &&& joined(base, name).len() == base.len() + 1 + name.len()
            &&& joined(base, name)[base.len() as int] == '/' as u8
        },
        base.len() == 0 || base.last() == '/' as u8 ==> joined(base, name).len() == base.len()
            + name.len(),
{
    assert(joined(base, name).take(base.len() as int) =~= base);
    assert(joined(base, name).skip(joined(base, name).len() - name.len()) =~= name);
}

/// Sessions are stored below the directory for state where there is one, below the
/// one for local data where there is only that, and otherwise below the current
/// one. The other directory has no bearing on it.
pub proof fn lemma_where_sessions_are_stored(state_dir: Seq<u8>, data_dir: Option<Seq<u8>>, dir: Seq<
    u8,
>)
    ensures
        sessions_path(Some(state_dir), data_dir) == below(state_dir, "tymux"@, "sessions"@),
        sessions_path(None, Some(dir)) == sessions_path(Some(dir), data_dir),
        sessions_path(None, None) == sessions_path(Some(seq!['.' as u8]), data_dir),
{
}

/// The configuration is looked for below `XDG_CONFIG_HOME` where that is set, and
/// otherwise below the platform's directory; without either there is none.
pub proof fn lemma_where_the_configuration_is(home: Seq<u8>, dir: Option<Seq<u8>>)
    ensures
        config_path(Some(home), dir) == Some(below(home, "tymux"@, "config.toml"@)),
        config_path(None, Some(home)) == config_path(Some(home), dir),
        config_path(None, None) is None,
{
}

/// A variable that is empty counts as one that is not set, and without either the
/// socket is below `/tmp`.
pub proof fn lemma_empty_variables_count_for_nothing(
    runtime: Option<Seq<u8>>,
    tmpdir: Option<Seq<u8>>,
    uid: u32,
)
    ensures
        socket_path(Some(seq![]), tmpdir, uid) == socket_path(None, tmpdir, uid),
        socket_path(runtime, Some(seq![]), uid) == socket_path(runtime, None, uid),
        socket_path(None, None, uid) == socket_path(
            None,
            Some(seq!['/' as u8, 't' as u8, 'm' as u8, 'p' as u8]),
            uid,
        ),
{
    reveal_strlit("/tmp");
    assert("/tmp"@ =~= seq!['/', 't', 'm', 'p']);
    assert(is_ascii_chars("/tmp"@));
    is_ascii_chars_encode_utf8("/tmp"@);
    assert(encode_utf8("/tmp"@) =~= seq!['/' as u8, 't' as u8, 'm' as u8, 'p' as u8]);
}

/// Where `XDG_RUNTIME_DIR` is set, nothing else decides where the socket is: the
/// directory is the user's own. Elsewhere the user's number is part of the name.
pub proof fn lemma_where_the_socket_is(
    runtime: Seq<u8>,
    tmpdir: Seq<u8>,
    other_tmpdir: Option<Seq<u8>>,
    uid: u32,
    other_uid: u32,
)
    requires
        runtime.len() > 0,
        tmpdir.len() > 0,
    ensures
        socket_path(Some(runtime), Some(tmpdir), uid) == socket_path(
            Some(runtime),
            other_tmpdir,
            other_uid,
        ),
        socket_path(Some(runtime), Some(tmpdir), uid) == below(runtime, "tymuxd"@, "tymuxd.sock"@),
        socket_path(None, Some(tmpdir), uid) == below(
            tmpdir,
            seq!['t', 'y', 'm', 'u', 'x', 'd', '-'] + text::decimal(uid as nat),
            "tymuxd.sock"@,
        ),
{
    reveal_strlit("tymuxd-");
    assert("tymuxd-"@ =~= seq!['t', 'y', 'm', 'u', 'x', 'd', '-']);
}

/// A file holds a session exactly if its name is something with `.json` behind it.
pub proof fn lemma_what_files_hold_sessions(stem: Seq<u8>, name: Seq<u8>)
    ensures
        is_session_file(stem + seq!['.' as u8, 'j' as u8, 's' as u8, 'o' as u8, 'n' as u8])
            <==> stem.len() > 0,
        is_session_file(name) ==> name == name.take(name.len() - 5) + seq![
            '.' as u8,
            'j' as u8,
            's' as u8,
            'o' as u8,
            'n' as u8,
        ],
{
    let ending = seq!['.' as u8, 'j' as u8, 's' as u8, 'o' as u8, 'n' as u8];
    let whole = stem + ending;
    assert(whole.skip(whole.len() - 5) =~= ending);
    if is_session_file(name) {
        assert(name =~= name.take(name.len() - 5) + name.skip(name.len() - 5));
    }
}

} // verus!
