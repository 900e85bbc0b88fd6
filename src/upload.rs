//! Names and paths of uploaded files.

use vstd::prelude::*;
use crate::text::{push_signed_decimal, signed_decimal};

verus! {

/// A character allowed in a stored file extension.
pub open spec fn is_extension_char(c: char) -> bool {
    ('a' <= c && c <= 'z') || ('A' <= c && c <= 'Z') || ('0' <= c && c <= '9')
}

/// The position of the last `.` in `s`, or -1 when there is none.
pub open spec fn last_dot(s: Seq<char>) -> int
    decreases s.len(),
{
    if s.len() == 0 {
        -1
    } else if s.last() == '.' {
        s.len() - 1
    } else {
        last_dot(s.drop_last())
    }
}

/// Whether the text after the last `.` of `name` can serve as the stored
/// extension: the dot does not begin the name or its last path component,
/// and what follows it is non-empty and letters and digits only.
pub open spec fn has_usable_extension(name: Seq<char>) -> bool {
    let k = last_dot(name);
    &&& k >= 1
    &&& name[k - 1] != '/'
    &&& name[k - 1] != '\\'
    &&& k + 1 < name.len()
    &&& forall|i: int| k < i < name.len() ==> #[trigger] is_extension_char(name[i])
}

/// The extension under which an upload named `name` is stored, `jpg` when the
/// name has no usable one (or the upload came without a name).
pub open spec fn stored_extension(name: Option<Seq<char>>) -> Seq<char> {
    match name {
        Some(n) => if has_usable_extension(n) {
            n.subrange(last_dot(n) + 1, n.len() as int)
        } else {
            "jpg"@
        },
        None => "jpg"@,
    }
}

/// `<unique>_<timestamp>.<extension>`.
pub open spec fn stored_file_name(unique: Seq<char>, timestamp: int, name: Option<Seq<char>>) -> Seq<char> {
    unique + "_"@ + signed_decimal(timestamp) + "."@ + stored_extension(name)
}

proof fn lemma_last_dot_range(s: Seq<char>)
    ensures
        -1 <= last_dot(s) < s.len(),
        last_dot(s) >= 0 ==> s[last_dot(s)] == '.',
        forall|i: int| last_dot(s) < i < s.len() ==> s[i] != '.',
    decreases s.len(),
{
    if s.len() > 0 && s.last() != '.' {
        let t = s.drop_last();
        lemma_last_dot_range(t);
        assert forall|i: int| last_dot(s) < i < s.len() implies s[i] != '.' by {
            if i < s.len() - 1 {
                assert(s[i] == t[i]);
            }
        }
    }
}

/// Finds the last `.` of `s`, scanning from the end.
fn find_last_dot(s: &str) -> (r: Option<usize>)
    ensures
        match r {
            Some(k) => k as int == last_dot(s@),
            None => last_dot(s@) == -1,
        },
{
    let n = s.unicode_len();
    let mut i: usize = n;
    assert(s@.subrange(0, n as int) =~= s@);
    while i > 0
        invariant
            i <= n == s@.len(),
            last_dot(s@) == last_dot(s@.subrange(0, i as int)),
        decreases i,
    {
        let ghost t = s@.subrange(0, i as int);
        assert(t.drop_last() =~= s@.subrange(0, i - 1));
        if s.get_char(i - 1) == '.' {
            return Some(i - 1);
        }
        i -= 1;
    }
    proof {
        assert(s@.subrange(0, 0) =~= Seq::<char>::empty());
    }
    None
}

/// The stored extension of the file name an upload arrived with.
pub fn file_extension(name: Option<&str>) -> (r: String)
    ensures
        r@ == stored_extension(
            match name {
                Some(n) => Some(n@),
                None => None,
            },
        ),
{
    proof {
        reveal_strlit("jpg");
    }
    let n = match name {
        Some(n) => n,
        None => return String::from_str("jpg"),
    };
    proof {
        lemma_last_dot_range(n@);
    }
    let len = n.unicode_len();
    let k = match find_last_dot(n) {
        Some(k) => k,
        None => return String::from_str("jpg"),
    };
    if k == 0 || k + 1 >= len {
        return String::from_str("jpg");
    }
    let before = n.get_char(k - 1);
    if before == '/' || before == '\\' {
        return String::from_str("jpg");
    }
    let mut i: usize = k + 1;
    while i < len
        invariant
            k + 1 <= i <= len == n@.len(),
            k as int == last_dot(n@),
            name == Some(n),
            forall|j: int| k < j < i ==> #[trigger] is_extension_char(n@[j]),
        decreases len - i,
    {
        let c = n.get_char(i);
        if !(('a' <= c && c <= 'z') || ('A' <= c && c <= 'Z') || ('0' <= c && c <= '9')) {
            assert(!is_extension_char(n@[i as int]));
            return String::from_str("jpg");
        }
        i += 1;
    }
    String::from_str(n.substring_char(k + 1, len))
}

/// The stored name of an upload: a caller-supplied unique prefix (a random
/// identifier or the owner's id), the upload time in seconds and the
/// extension of the name it arrived with.
pub fn photo_file_name(unique: &str, timestamp: i64, client_name: Option<&str>) -> (r: String)
    ensures
        r@ == stored_file_name(
            unique@,
            timestamp as int,
            match client_name {
                Some(n) => Some(n@),
                None => None,
            },
        ),
{
    let mut out = String::from_str(unique);
    out.append("_");
    push_signed_decimal(&mut out, timestamp);
    out.append(".");
    let ext = file_extension(client_name);
    out.append(ext.as_str());
    out
}

/// Where an upload named `file_name` is written: `uploads/<file_name>`.
pub fn upload_path(file_name: &str) -> (r: String)
    ensures
        r@ == "uploads/"@ + file_name@,
{
    let mut out = String::from_str("uploads/");
    out.append(file_name);
    out
}

/// The public URL of an upload named `file_name`: `/uploads/<file_name>`.
pub fn public_url(file_name: &str) -> (r: String)
    ensures
        r@ == "/uploads/"@ + file_name@,
{
    let mut out = String::from_str("/uploads/");
    out.append(file_name);
    out
}

/// The file path behind a public URL: the URL without its leading `/`.
pub open spec fn path_of_url(url: Seq<char>) -> Seq<char> {
    if url.len() > 0 && url[0] == '/' {
        url.subrange(1, url.len() as int)
    } else {
        url
    }
}

/// The file path behind a public URL: the URL without its leading `/`.
pub fn file_path_of_url(url: &str) -> (r: String)
    ensures
        r@ == path_of_url(url@),
{
    let n = url.unicode_len();
    if n > 0 && url.get_char(0) == '/' {
        String::from_str(url.substring_char(1, n))
    } else {
        String::from_str(url)
    }
}

/// Where and under which name a non-empty upload is stored.
#[derive(Debug, Clone)]
pub struct StoredUpload {
    /// The stored file name.
    pub file_name: String,
    /// The file path to write: `uploads/<file_name>`.
    pub path: String,
    /// The public URL: `/uploads/<file_name>`.
    pub url: String,
}

/// Plans the storage of an upload of `data_len` bytes: an empty upload is
/// ignored (`None`); any other is stored under the name `photo_file_name`
/// derives.
pub fn plan_upload(data_len: usize, unique: &str, timestamp: i64, client_name: Option<&str>) -> (r: Option<StoredUpload>)
    ensures
        data_len == 0 ==> r is None,
        data_len > 0 ==> (r matches Some(u) && ({
            let name = stored_file_name(
                unique@,
                timestamp as int,
                match client_name {
                    Some(n) => Some(n@),
                    None => None,
                },
            );
            &&& u.file_name@ == name
            &&& u.path@ == "uploads/"@ + name
            &&& u.url@ == "/uploads/"@ + name
        })),
{
    if data_len == 0 {
        return None;
    }
    let file_name = photo_file_name(unique, timestamp, client_name);
    let path = upload_path(file_name.as_str());
    let url = public_url(file_name.as_str());
    Some(StoredUpload { file_name, path, url })
}

} // verus!
