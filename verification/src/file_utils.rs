//! Input-file classification and encoding.
//!
//! The pipeline accepts a small set of input formats, recognised by file
//! extension, and hands the conversion backend base64-encoded file bytes
//! together with their media type.

use crate::error::NotedError;
use crate::strops::str_eq;
use vstd::prelude::*;

verus! {

/// One encoded input: the base64 payload and its media type.
pub struct FileData {
    pub encoded_data: String,
    pub mime_type: String,
}

/// The index of the last occurrence of `c` in `s`, or `-1`.
pub open spec fn last_index_of(s: Seq<char>, c: char) -> int
    decreases s.len(),
{
    if s.len() == 0 {
        -1
    } else if s.last() == c {
        s.len() - 1
    } else {
        last_index_of(s.drop_last(), c)
    }
}

/// The number of trailing `/` separators.
pub open spec fn trailing_slashes(s: Seq<char>) -> int
    decreases s.len(),
{
    if s.len() > 0 && s.last() == '/' {
        1 + trailing_slashes(s.drop_last())
    } else {
        0
    }
}

/// The file-name component of a path: everything after the last `/`, with
/// trailing separators ignored.
pub open spec fn file_name_of(path: Seq<char>) -> Seq<char> {
    let p = path.take(path.len() - trailing_slashes(path));
    p.skip(last_index_of(p, '/') + 1)
}

/// The extension of a path: what follows the last `.` of its file name,
/// unless that dot is absent or leads the name (a hidden file), or the
/// name is the parent-directory component `..`.
pub open spec fn extension_of(path: Seq<char>) -> Option<Seq<char>> {
    let name = file_name_of(path);
    let d = last_index_of(name, '.');
    if name.len() == 2 && name[0] == '.' && name[1] == '.' {
        None
    } else if d <= 0 {
        None
    } else {
        Some(name.skip(d + 1))
    }
}

/// The media type for a supported extension.
pub open spec fn mime_of(ext: Seq<char>) -> Option<Seq<char>> {
    if ext == "png"@ {
        Some("image/png"@)
    } else if ext == "pdf"@ {
        Some("application/pdf"@)
    } else if ext == "jpg"@ {
        Some("image/jpeg"@)
    } else if ext == "jpeg"@ {
        Some("image/jpeg"@)
    } else {
        None
    }
}

proof fn lemma_last_index_of_present(s: Seq<char>, c: char, i: int)
    requires
        0 <= i < s.len(),
        s[i] == c,
        forall|j: int| i < j < s.len() ==> s[j] != c,
    ensures
        last_index_of(s, c) == i,
    decreases s.len(),
{
    if i == s.len() - 1 {
    } else {
        assert(s.last() != c);
        assert(s.drop_last()[i] == c);
        lemma_last_index_of_present(s.drop_last(), c, i);
    }
}

proof fn lemma_last_index_of_absent(s: Seq<char>, c: char)
    requires
        forall|j: int| 0 <= j < s.len() ==> s[j] != c,
    ensures
        last_index_of(s, c) == -1,
    decreases s.len(),
{
    if s.len() > 0 {
        lemma_last_index_of_absent(s.drop_last(), c);
    }
}

proof fn lemma_trailing_slashes_at(s: Seq<char>, k: int)
    requires
        0 <= k <= s.len(),
        forall|j: int| s.len() - k <= j < s.len() ==> #[trigger] s[j] == '/',
        k < s.len() ==> s[s.len() - k - 1] != '/',
    ensures
        trailing_slashes(s) == k,
    decreases s.len(),
{
    if k == 0 {
    } else {
        assert(s.last() == '/');
        assert(forall|j: int|
            s.drop_last().len() - (k - 1) <= j < s.drop_last().len() ==> #[trigger] s.drop_last()[j]
                == '/');
        lemma_trailing_slashes_at(s.drop_last(), k - 1);
    }
}

/// The index of the last occurrence of `c` in `s[lo..hi)`, scanning from
/// the end, or none.
fn rfind_char(s: &str, lo: usize, hi: usize, c: char) -> (r: Option<usize>)
    requires
        lo <= hi <= s@.len(),
    ensures
        match r {
            Some(k) => {
                &&& lo <= k < hi
                &&& s@[k as int] == c
                &&& last_index_of(s@.subrange(lo as int, hi as int), c) == k - lo
            },
            None => last_index_of(s@.subrange(lo as int, hi as int), c) == -1,
        },
{
    let mut i: usize = hi;
    while i > lo
        invariant
            lo <= i <= hi <= s@.len(),
            forall|j: int| i <= j < hi ==> s@[j] != c,
        decreases i,
    {
        i -= 1;
        if s.get_char(i) == c {
            proof {
                let w = s@.subrange(lo as int, hi as int);
                assert(w[i - lo] == c);
                assert(forall|j: int| i - lo < j < w.len() ==> w[j] != c);
                lemma_last_index_of_present(w, c, i - lo);
            }
            return Some(i);
        }
    }
    proof {
        let w = s@.subrange(lo as int, hi as int);
        assert(forall|j: int| 0 <= j < w.len() ==> w[j] != c);
        lemma_last_index_of_absent(w, c);
    }
    None
}

/// Classify a file by its extension and return its media type.
///
/// Exactly the extensions `png`, `pdf`, `jpg` and `jpeg` are supported;
/// any other extension, and a path with no extension, is rejected.
pub fn get_file_mime_type(file_path: &str) -> (r: Result<String, NotedError>)
    ensures
        match r {
            Ok(m) => {
                &&& extension_of(file_path@) matches Some(e)
                &&& mime_of(e) == Some(m@)
            },
            Err(NotedError::UnsupportedFileType(t)) => match extension_of(file_path@) {
                Some(e) => mime_of(e) is None && t@ == e,
                None => t@ == "No extension"@,
            },
            Err(_) => false,
        },
{
    let n = file_path.unicode_len();
    let mut hi: usize = n;
    while hi > 0
        invariant
            hi <= n,
            n == file_path@.len(),
            forall|j: int| hi <= j < n ==> #[trigger] file_path@[j] == '/',
        ensures
            hi <= n,
            forall|j: int| hi <= j < n ==> #[trigger] file_path@[j] == '/',
            hi > 0 ==> file_path@[hi - 1] != '/',
        decreases hi,
    {
        if file_path.get_char(hi - 1) != '/' {
            break ;
        }
        hi -= 1;
    }
    proof {
        lemma_trailing_slashes_at(file_path@, n - hi);
        assert(file_path@.take(hi as int) =~= file_path@.subrange(0, hi as int));
    }
    let slash = rfind_char(file_path, 0, hi, '/');
    let name_lo: usize = match slash {
        Some(k) => k + 1,
        None => 0,
    };
    let ghost name = file_name_of(file_path@);
    proof {
        assert(name =~= file_path@.subrange(name_lo as int, hi as int));
    }
    if hi - name_lo == 2 && file_path.get_char(name_lo) == '.' && file_path.get_char(
        name_lo + 1,
    ) == '.' {
        proof {
            assert(name.len() == 2 && name[0] == '.' && name[1] == '.');
            assert(extension_of(file_path@) is None);
        }
        return Err(NotedError::UnsupportedFileType(String::from_str("No extension")));
    }
    let dot = rfind_char(file_path, name_lo, hi, '.');
    match dot {
        Some(d) if d > name_lo => {
            proof {
                assert(extension_of(file_path@) == Some(name.skip(d - name_lo + 1)));
                assert(name.skip(d - name_lo + 1) =~= file_path@.subrange(
                    d + 1 as int,
                    hi as int,
                ));
            }
            let ext = file_path.substring_char(d + 1, hi);
            if str_eq(ext, "png") {
                Ok(String::from_str("image/png"))
            } else if str_eq(ext, "pdf") {
                Ok(String::from_str("application/pdf"))
            } else if str_eq(ext, "jpg") {
                Ok(String::from_str("image/jpeg"))
            } else if str_eq(ext, "jpeg") {
                Ok(String::from_str("image/jpeg"))
            } else {
                Err(NotedError::UnsupportedFileType(ext.to_owned()))
            }
        },
        _ => {
            proof {
                if dot is Some {
                    let d = dot->0;
                    assert(d == name_lo);
                    assert(last_index_of(name, '.') == 0);
                } else {
                    assert(last_index_of(name, '.') == -1);
                }
                assert(extension_of(file_path@) is None);
            }
            Err(NotedError::UnsupportedFileType(String::from_str("No extension")))
        },
    }
}

/// What the base64 crate's padded standard-alphabet engine returns for a
/// byte sequence.
pub uninterp spec fn base64_standard_of(bytes: Seq<u8>) -> Seq<char>;

/// Relies on base64's `Engine::encode` with the `STANDARD` engine: the
/// result is a pure function of the input bytes, 4 * ceil(n / 3) characters
/// long (padded output).  The bound on the input length rules out the
/// overflow panic in the crate's buffer-size computation.
#[verifier::external_body]
fn base64_encode(data: &[u8]) -> (r: String)
    requires
        4 * ((data@.len() + 2) as int / 3) <= usize::MAX,
    ensures
        r@ == base64_standard_of(data@),
        r@.len() == 4 * ((data@.len() + 2) as int / 3),
{
    base64::Engine::encode(&base64::engine::general_purpose::STANDARD, data)
}

/// Encode a file's bytes for the conversion backend.
///
/// The bytes are base64-encoded and paired with the media type derived
/// from the path's extension; an unsupported extension is rejected with
/// the same classification as [`get_file_mime_type`].
pub fn process_file(file_path: &str, data: &[u8]) -> (r: Result<FileData, NotedError>)
    requires
        4 * ((data@.len() + 2) as int / 3) <= usize::MAX,
    ensures
        match r {
            Ok(fd) => {
                &&& extension_of(file_path@) matches Some(e)
                &&& mime_of(e) == Some(fd.mime_type@)
                &&& fd.encoded_data@ == base64_standard_of(data@)
            },
            Err(NotedError::UnsupportedFileType(t)) => match extension_of(file_path@) {
                Some(e) => mime_of(e) is None && t@ == e,
                None => t@ == "No extension"@,
            },
            Err(_) => false,
        },
{
    let mime_type = get_file_mime_type(file_path)?;
    let encoded_data = base64_encode(data);
    Ok(FileData { encoded_data, mime_type })
}

} // verus!
