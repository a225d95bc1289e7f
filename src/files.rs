use vstd::prelude::*;

verus! {

/// Whether two strings hold the same characters.
pub fn same_text(a: &str, b: &str) -> (r: bool)
    ensures
        r == (a@ == b@),
{
    let n = a.unicode_len();
    if n != b.unicode_len() {
        return false;
    }
    let mut i: usize = 0;
    while i < n
        invariant
            i <= n,
            n == a@.len(),
            n == b@.len(),
            forall|j: int| 0 <= j < i ==> a@[j] == b@[j],
        decreases n - i,
    {
        if a.get_char(i) != b.get_char(i) {
            return false;
        }
        i = i + 1;
    }
    assert(a@ =~= b@);
    true
}

/// A hidden name starts with a full stop and is not `.` itself.
pub open spec fn is_hidden_name(name: Seq<char>) -> bool {
    name.len() > 0 && name[0] == '.' && name != seq!['.']
}

/// Whether a directory entry is hidden, by its name; a name that is not
/// valid text (`None`) is not hidden.
pub fn is_hidden(name: Option<&str>) -> (r: bool)
    ensures
        r == (name matches Some(n) && is_hidden_name(n@)),
{
    match name {
        None => false,
        Some(n) => {
            let len = n.unicode_len();
            if len == 0 || n.get_char(0) != '.' {
                false
            } else if len == 1 {
                assert(n@ =~= seq!['.']);
                false
            } else {
                assert(n@.len() != 1);
                true
            }
        },
    }
}

/// The file extensions of films: mkv, mp4, avi and m4v.
pub open spec fn is_film_extension(ext: Seq<char>) -> bool {
    ext == "mkv"@ || ext == "mp4"@ || ext == "avi"@ || ext == "m4v"@
}

/// Whether `ext` is the extension of a film file.
pub fn is_accepted_extension(ext: &str) -> (r: bool)
    ensures
        r == is_film_extension(ext@),
{
    same_text(ext, "mkv") || same_text(ext, "mp4") || same_text(ext, "avi") || same_text(ext, "m4v")
}

/// Whether a directory entry may hold films: a directory or other non-file
/// entry always, a file where its extension (`None` if it has none or it is
/// not valid text) is that of a film.
pub fn is_accepted_file(is_file: bool, ext: Option<&str>) -> (r: bool)
    ensures
        r == (!is_file || (ext matches Some(e) && is_film_extension(e@))),
{
    if !is_file {
        true
    } else {
        match ext {
            Some(e) => is_accepted_extension(e),
            None => false,
        }
    }
}

/// Whether the directory walk enters or keeps an entry: it is not hidden, and
/// it is no file of another kind than film.
pub fn keep_entry(name: Option<&str>, is_file: bool, ext: Option<&str>) -> (r: bool)
    ensures
        r == (!(name matches Some(n) && is_hidden_name(n@)) && (!is_file || (ext matches Some(e)
            && is_film_extension(e@)))),
{
    !is_hidden(name) && is_accepted_file(is_file, ext)
}

} // verus!
