//! File uploads and downloads: the storage-name derivation, the sanitised
//! `Content-Disposition` header, the assembly of multipart form parts, and
//! the download decision.

use vstd::prelude::*;

use crate::ids::uuid_seq;
use crate::ids::uuid_string;
use crate::models::ApiError;

verus! {

/// The characters after the last occurrence of `c`, or `None` when `c` does
/// not occur.
pub open spec fn after_last(s: Seq<char>, c: char) -> Option<Seq<char>>
    decreases s.len(),
{
    if s.len() == 0 {
        None
    } else if s.last() == c {
        Some(Seq::empty())
    } else {
        match after_last(s.drop_last(), c) {
            Some(t) => Some(t.push(s.last())),
            None => None,
        }
    }
}

/// The file-name part of a client-supplied path: what follows the last `/`,
/// or the whole string.
pub open spec fn name_part(s: Seq<char>) -> Seq<char> {
    match after_last(s, '/') {
        Some(t) => t,
        None => s,
    }
}

/// The extension of a client-supplied file name: the non-empty suffix after
/// the last dot of its file-name part, provided that dot is not the part's
/// first character; `None` otherwise.
pub open spec fn extension_of(s: Seq<char>) -> Option<Seq<char>> {
    let f = name_part(s);
    match after_last(f, '.') {
        Some(e) => if e.len() > 0 && f.len() > e.len() + 1 {
            Some(e)
        } else {
            None
        },
        None => None,
    }
}

/// The storage name of an uploaded blob: the file id in hyphenated form,
/// keeping the original extension when there is one.
pub open spec fn storage_name(id: u128, original: Seq<char>) -> Seq<char> {
    match extension_of(original) {
        Some(e) => uuid_seq(id) + seq!['.'] + e,
        None => uuid_seq(id),
    }
}

proof fn lemma_after_last_some(s: Seq<char>, c: char, k: int)
    requires
        0 <= k < s.len(),
        s[k] == c,
        forall|m: int| k < m < s.len() ==> s[m] != c,
    ensures
        after_last(s, c) == Some(s.subrange(k + 1, s.len() as int)),
    decreases s.len(),
{
    if k == s.len() - 1 {
        assert(s.last() == c);
        assert(s.subrange(k + 1, s.len() as int) =~= Seq::<char>::empty());
    } else {
        assert(s.last() != c);
        let b = s.drop_last();
        assert(forall|m: int| k < m < b.len() ==> b[m] != c);
        lemma_after_last_some(b, c, k);
        assert(b.subrange(k + 1, b.len() as int).push(s.last()) =~= s.subrange(
            k + 1,
            s.len() as int,
        ));
    }
}

proof fn lemma_after_last_none(s: Seq<char>, c: char)
    requires
        forall|m: int| 0 <= m < s.len() ==> s[m] != c,
    ensures
        after_last(s, c) is None,
    decreases s.len(),
{
    if s.len() > 0 {
        let b = s.drop_last();
        assert(forall|m: int| 0 <= m < b.len() ==> b[m] != c);
        lemma_after_last_none(b, c);
    }
}

/// Derive the storage name of a blob from its file id and the original
/// client-supplied name.
#[verifier::rlimit(30)]
pub fn storage_filename(id: u128, original: &str) -> (r: String)
    ensures
        r@ == storage_name(id, original@),
{
    let n = original.unicode_len();
    let mut sl: Option<usize> = None;
    let mut dp: Option<usize> = None;
    let mut i: usize = 0;
    while i < n
        invariant
            0 <= i <= n,
            n as nat == original@.len(),
            match sl {
                Some(s) => s < i && original@[s as int] == '/' && (forall|m: int|
                    s < m < i ==> original@[m] != '/'),
                None => forall|m: int| 0 <= m < i ==> original@[m] != '/',
            },
            match dp {
                Some(d) => {
                    &&& d < i
                    &&& original@[d as int] == '.'
                    &&& forall|m: int| d < m < i ==> original@[m] != '.'
                    &&& forall|m: int| d < m < i ==> original@[m] != '/'
                    &&& match sl {
                        Some(s) => s < d,
                        None => true,
                    }
                },
                None => {
                    match sl {
                        Some(s) => forall|m: int| s < m < i ==> original@[m] != '.',
                        None => forall|m: int| 0 <= m < i ==> original@[m] != '.',
                    }
                },
            },
        decreases n - i,
    {
        let c = original.get_char(i);
        if c == '/' {
            sl = Some(i);
            dp = None;
        } else if c == '.' {
            dp = Some(i);
        }
        i = i + 1;
    }
    let start: usize = match sl {
        Some(s) => s + 1,
        None => 0,
    };
    proof {
        let o = original@;
        let f = name_part(o);
        match sl {
            Some(s) => {
                lemma_after_last_some(o, '/', s as int);
                assert(f == o.subrange(s as int + 1, n as int));
            },
            None => {
                lemma_after_last_none(o, '/');
                assert(f == o);
            },
        }
        assert(f =~= o.subrange(start as int, n as int));
    }
    let mut s = uuid_string(id);
    let has_ext: bool = match dp {
        Some(d) => d > start && d + 1 < n,
        None => false,
    };
    if has_ext {
        let d = match dp {
            Some(d) => d,
            None => 0,
        };
        proof {
            let o = original@;
            let f = o.subrange(start as int, n as int);
            let k = d - start;
            assert(f[k as int] == o[d as int]);
            assert forall|m: int| k < m < f.len() implies f[m] != '.' by {
                assert(f[m] == o[m + start]);
            }
            lemma_after_last_some(f, '.', k as int);
            let e = f.subrange(k as int + 1, f.len() as int);
            assert(e =~= o.subrange(d as int + 1, n as int));
            assert(e.len() == n - d - 1);
            assert(e.len() > 0);
            assert(f.len() > e.len() + 1);
            assert(extension_of(o) == Some(e));
        }
        s.append(".");
        let e = original.substring_char(d + 1, n);
        s.append(e);
        proof {
            reveal_strlit(".");
            assert("."@ =~= (seq!['.']));
            assert(s@ =~= storage_name(id, original@));
        }
    } else {
        proof {
            let o = original@;
            let f = o.subrange(start as int, n as int);
            match dp {
                Some(d) => {
                    let k = d - start;
                    assert(k >= 0);
                    assert(f[k as int] == o[d as int]);
                    assert forall|m: int| k < m < f.len() implies f[m] != '.' by {
                        assert(f[m] == o[m + start]);
                    }
                    lemma_after_last_some(f, '.', k as int);
                    let e = f.subrange(k as int + 1, f.len() as int);
                    assert(e.len() == n - d - 1);
                    if d + 1 == n {
                        assert(e.len() == 0);
                    } else {
                        assert(d <= start);
                        assert(f.len() <= e.len() + 1);
                    }
                    assert(extension_of(o) is None);
                },
                None => {
                    assert forall|m: int| 0 <= m < f.len() implies f[m] != '.' by {
                        assert(f[m] == o[m + start]);
                    }
                    lemma_after_last_none(f, '.');
                    assert(extension_of(o) is None);
                },
            }
            assert(s@ =~= storage_name(id, original@));
        }
    }
    s
}

/// Characters allowed into the quoted file name of a `Content-Disposition`
/// header: everything but the quote, the backslash and control characters.
pub open spec fn is_safe_char(c: char) -> bool {
    !(c == '"' || c == '\\' || (c as u32) < 32 || c as u32 == 127)
}

/// A client-supplied name with quote, backslash and control characters
/// stripped.
pub open spec fn sanitized(s: Seq<char>) -> Seq<char> {
    s.filter(|c: char| is_safe_char(c))
}

/// The download header announcing the original file name, sanitised.
pub open spec fn content_disposition_for(orig: Seq<char>) -> Seq<char> {
    "attachment; filename=\""@ + sanitized(orig) + "\""@
}

fn is_safe_char_e(c: char) -> (r: bool)
    ensures
        r == is_safe_char(c),
{
    !(c == '"' || c == '\\' || (c as u32) < 32 || c as u32 == 127)
}

/// Build the `Content-Disposition` header value for a download, stripping
/// quote, backslash and control characters from the original name so the
/// quoted form cannot be broken out of.
pub fn content_disposition(original: &str) -> (r: String)
    ensures
        r@ == content_disposition_for(original@),
{
    let mut s = "attachment; filename=\"".to_owned();
    let ghost prefix = "attachment; filename=\""@;
    let n = original.unicode_len();
    proof {
        assert(original@.subrange(0, 0).filter(|c: char| is_safe_char(c)) =~= Seq::<
            char,
        >::empty());
        assert(s@ =~= prefix + sanitized(original@.subrange(0, 0)));
    }
    let mut i: usize = 0;
    while i < n
        invariant
            0 <= i <= n,
            n as nat == original@.len(),
            s@ =~= prefix + sanitized(original@.subrange(0, i as int)),
        decreases n - i,
    {
        let c = original.get_char(i);
        if is_safe_char_e(c) {
            let piece = original.substring_char(i, i + 1);
            s.append(piece);
        }
        proof {
            reveal(Seq::filter);
            let pred = |ch: char| is_safe_char(ch);
            let pre = original@.subrange(0, i as int + 1);
            assert(pre.drop_last() =~= original@.subrange(0, i as int));
            assert(pre.last() == original@[i as int]);
            if is_safe_char(original@[i as int]) {
                assert(original@.subrange(i as int, i as int + 1) =~= seq![
                    original@[i as int],
                ]);
            }
            assert(s@ =~= prefix + sanitized(pre));
        }
        i = i + 1;
    }
    s.append("\"");
    proof {
        assert(original@.subrange(0, n as int) =~= original@);
        assert(s@ =~= content_disposition_for(original@));
    }
    s
}

/// One part of the multipart upload form, as the HTTP layer hands it over.
#[derive(Debug)]
pub struct FilePart {
    pub filename: Option<String>,
    pub content_type: Option<String>,
    pub data: Vec<u8>,
}

/// The upload metadata after defaults are applied.
#[derive(Debug)]
pub struct UploadMeta {
    pub original_filename: String,
    pub mime_type: String,
    pub uploaded_by: String,
}

/// Validate the collected multipart fields: the `file` part is required, the
/// file name defaults to `"unknown"`, the content type to
/// `"application/octet-stream"` and the uploader to `"Anonymous"`.
pub fn collect_upload(file: Option<FilePart>, uploaded_by: Option<String>) -> (r: Result<
    (UploadMeta, Vec<u8>),
    ApiError,
>)
    ensures
        match r {
            Ok(p) => {
                &&& file matches Some(fp) && p.1@ == fp.data@ && p.0.original_filename@ == (
                match fp.filename {
                    Some(f) => f@,
                    None => "unknown"@,
                }) && p.0.mime_type@ == (match fp.content_type {
                    Some(c) => c@,
                    None => "application/octet-stream"@,
                })
                &&& p.0.uploaded_by@ == (match uploaded_by {
                    Some(u) => u@,
                    None => "Anonymous"@,
                })
            },
            Err(e) => e == ApiError::Validation && file is None,
        },
{
    let fp = match file {
        Some(fp) => fp,
        None => {
            return Err(ApiError::Validation);
        },
    };
    let meta = UploadMeta {
        original_filename: match fp.filename {
            Some(f) => f,
            None => "unknown".to_owned(),
        },
        mime_type: match fp.content_type {
            Some(c) => c,
            None => "application/octet-stream".to_owned(),
        },
        uploaded_by: match uploaded_by {
            Some(u) => u,
            None => "Anonymous".to_owned(),
        },
    };
    Ok((meta, fp.data))
}

/// What a successful download responds with; the HTTP layer only copies
/// these into the response.
#[derive(Debug)]
pub struct FileDownload {
    pub data: Vec<u8>,
    pub content_type: String,
    pub content_disposition: String,
}

/// Decide a download from the stored row and what the blob store returned:
/// a missing blob is `NotFound`, never a server error; a present blob is
/// served as-is under the stored mime type, with the header naming the
/// (sanitised) original file name.
pub fn download_file(record: &crate::models::EventFile, blob: Option<Vec<u8>>) -> (r: Result<
    FileDownload,
    ApiError,
>)
    ensures
        match r {
            Ok(d) => {
                &&& blob matches Some(b) && d.data@ == b@
                &&& d.content_type@ == record@.mime_type
                &&& d.content_disposition@ == content_disposition_for(record@.original_filename)
            },
            Err(e) => e == ApiError::NotFound && blob is None,
        },
{
    let b = match blob {
        Some(b) => b,
        None => {
            return Err(ApiError::NotFound);
        },
    };
    let cd = content_disposition(record.original_filename.as_str());
    let ct = record.mime_type.as_str().to_owned();
    Ok(FileDownload { data: b, content_type: ct, content_disposition: cd })
}

} // verus!
