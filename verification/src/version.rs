//! Which published release is newer than the running program, and where
//! its binary for this system can be had.

use vstd::prelude::*;
use vstd::slice::slice_subrange;
use vstd::string::StringExecFns;
use crate::credentials::optional_text;
use crate::text::{chars_of, same_chars, string_of};

verus! {

/// The system for which releases are taken where the build names none.
pub const DEFAULT_OS: &'static str = "osx";

/// The length in bytes of the extension that an asset's file name ends
/// in.
pub const EXTENSION_BYTES: usize = 4;

/// A file that belongs to a release.
#[derive(Debug)]
pub struct Asset {
    pub name: String,
    pub browser_download_url: String,
}

/// A release, as the release service describes it.
#[derive(Debug)]
pub struct GithubVersion {
    pub tag_name: String,
    pub html_url: String,
    pub assets: Vec<Asset>,
}

/// A release that is not the running one.
#[derive(Debug)]
pub struct PublishedVersion {
    pub tag_name: String,
    pub html_url: String,
    pub binary_download_url: String,
}

/// The number of bytes that `c` takes in UTF-8.
pub open spec fn utf8_width(c: char) -> int {
    let n = c as u32;
    if n < 0x80 {
        1
    } else if n < 0x800 {
        2
    } else if n < 0x1_0000 {
        3
    } else {
        4
    }
}

/// How many characters at the end of `s` take exactly `bytes` bytes
/// together; `None` where no number of them does.
pub open spec fn tail_chars(s: Seq<char>, bytes: int) -> Option<int>
    decreases s.len(),
{
    if bytes == 0 {
        Some(0)
    } else if s.len() == 0 || utf8_width(s.last()) > bytes {
        None
    } else {
        match tail_chars(s.drop_last(), bytes - utf8_width(s.last())) {
            Some(k) => Some(k + 1),
            None => None,
        }
    }
}

/// The index of the last `c` in `s`, or -1 where it holds none.
pub open spec fn last_index(s: Seq<char>, c: char) -> int
    decreases s.len(),
{
    if s.len() == 0 {
        -1
    } else if s.last() == c {
        s.len() - 1
    } else {
        last_index(s.drop_last(), c)
    }
}

/// The system that the file name of an asset names: what stands between
/// its last hyphen and its extension of four bytes. `None` where the name
/// has no hyphen or no such extension behind it.
pub open spec fn os_part(file: Seq<char>) -> Option<Seq<char>> {
    let dash = last_index(file, '-');
    match tail_chars(file, EXTENSION_BYTES as int) {
        Some(k) => if 0 <= dash && dash + 1 <= file.len() - k {
            Some(file.subrange(dash + 1, file.len() - k))
        } else {
            None
        },
        None => None,
    }
}

/// The index of the first asset that is for `os`.
pub open spec fn first_for(names: Seq<Seq<char>>, os: Seq<char>) -> Option<int>
    decreases names.len(),
{
    if names.len() == 0 {
        None
    } else {
        match first_for(names.drop_last(), os) {
            Some(i) => Some(i),
            None => if os_part(names.last()) == Some(os) {
                Some(names.len() - 1)
            } else {
                None
            },
        }
    }
}

/// The file names of `assets`.
pub open spec fn names_of(assets: Seq<Asset>) -> Seq<Seq<char>> {
    Seq::new(assets.len(), |i: int| assets[i].name@)
}

/// Whether the assets up to the first one for `os` all name a system.
pub open spec fn names_readable(names: Seq<Seq<char>>, os: Seq<char>) -> bool {
    forall|i: int|
        0 <= i < names.len() && first_for(names.take(i), os) is None ==> os_part(
            #[trigger] names[i],
        ) is Some
}

/// The system for which releases are taken: the one that the build
/// names, else `DEFAULT_OS`.
pub fn os_name(build_os: Option<&'static str>) -> (r: &'static str)
    ensures
        r@ == match build_os {
            Some(os) => os@,
            None => DEFAULT_OS@,
        },
{
    match build_os {
        Some(os) => os,
        None => DEFAULT_OS,
    }
}

fn width_of(c: char) -> (w: usize)
    ensures
        w == utf8_width(c),
        1 <= w <= 4,
{
    let n: u32 = c as u32;
    if n < 0x80 {
        1
    } else if n < 0x800 {
        2
    } else if n < 0x1_0000 {
        3
    } else {
        4
    }
}

fn tail_of(s: &[char], bytes: usize) -> (r: Option<usize>)
    ensures
        match r {
            Some(k) => tail_chars(s@, bytes as int) == Some(k as int) && k <= s.len(),
            None => tail_chars(s@, bytes as int) is None,
        },
{
    let mut left: usize = bytes;
    let mut end: usize = s.len();
    assert(s@.take(end as int) == s@);
    while left > 0
        invariant
            end <= s.len(),
            left <= bytes,
            match tail_chars(s@.take(end as int), left as int) {
                Some(k) => tail_chars(s@, bytes as int) == Some(k + s.len() - end),
                None => tail_chars(s@, bytes as int) is None,
            },
        decreases left,
    {
        if end == 0 {
            return None;
        }
        let w = width_of(s[end - 1]);
        if w > left {
            return None;
        }
        assert(s@.take(end as int).drop_last() == s@.take(end - 1));
        left -= w;
        end -= 1;
    }
    Some(s.len() - end)
}

fn last_of(s: &[char], c: char) -> (r: Option<usize>)
    ensures
        match r {
            Some(i) => last_index(s@, c) == i && i < s.len(),
            None => last_index(s@, c) == -1,
        },
{
    let mut end: usize = s.len();
    assert(s@.take(end as int) == s@);
    while end > 0
        invariant
            end <= s.len(),
            last_index(s@, c) == last_index(s@.take(end as int), c),
        decreases end,
    {
        if s[end - 1] == c {
            return Some(end - 1);
        }
        assert(s@.take(end as int).drop_last() == s@.take(end - 1));
        end -= 1;
    }
    None
}

/// The system that the file name of an asset names, if it names one.
pub fn find_os(file: &str) -> (r: Option<String>)
    ensures
        optional_text(r) == os_part(file@),
{
    let chars = chars_of(file);
    let s = chars.as_slice();
    match tail_of(s, EXTENSION_BYTES) {
        Some(k) => match last_of(s, '-') {
            Some(dash) => if dash + 1 <= s.len() - k {
                Some(string_of(slice_subrange(s, dash + 1, s.len() - k)))
            } else {
                None
            },
            None => None,
        },
        None => None,
    }
}

/// The system that the file name of an asset names.
pub fn extract_os(file: &str) -> (r: String)
    requires
        os_part(file@) is Some,
    ensures
        Some(r@) == os_part(file@),
{
    match find_os(file) {
        Some(os) => os,
        None => String::new(),
    }
}

/// The address of the first of `assets` that is for `os`.
pub fn get_download_url(assets: &Vec<Asset>, os: &str) -> (r: Option<String>)
    requires
        names_readable(names_of(assets@), os@),
    ensures
        match first_for(names_of(assets@), os@) {
            Some(i) => r matches Some(url) && url@ == assets[i].browser_download_url@,
            None => r is None,
        },
{
    let ghost names = names_of(assets@);
    let wanted = chars_of(os);
    let mut i: usize = 0;
    while i < assets.len()
        invariant
            i <= assets.len(),
            names == names_of(assets@),
            names_readable(names, os@),
            wanted@ == os@,
            first_for(names.take(i as int), os@) is None,
        decreases assets.len() - i,
    {
        assert(names.take(i + 1).drop_last() == names.take(i as int));
        assert(os_part(names[i as int]) is Some);
        let found = extract_os(assets[i].name.as_str());
        let found_chars = chars_of(found.as_str());
        if same_chars(found_chars.as_slice(), wanted.as_slice()) {
            proof {
                lemma_first_for_extends(names, os@, i as int);
            }
            return Some(assets[i].browser_download_url.clone());
        }
        i += 1;
    }
    assert(names.take(i as int) == names);
    None
}

/// The first asset for `os` among the first `i + 1` is the first among
/// all.
proof fn lemma_first_for_extends(names: Seq<Seq<char>>, os: Seq<char>, i: int)
    requires
        0 <= i < names.len(),
        first_for(names.take(i + 1), os) is Some,
    ensures
        first_for(names, os) == first_for(names.take(i + 1), os),
    decreases names.len(),
{
    if i + 1 == names.len() {
        assert(names.take(i + 1) == names);
    } else {
        assert(names.drop_last().take(i + 1) == names.take(i + 1));
        lemma_first_for_extends(names.drop_last(), os, i);
    }
}

/// What a look at the latest release says to a program of version
/// `current` that runs on `os`: nothing where it is that release, else
/// the release with the address of its binary for `os`, or that it has
/// no such binary.
pub fn check_new_version(current: &str, os: &str, latest: GithubVersion) -> (r: Result<
    Option<PublishedVersion>,
    String,
>)
    requires
        latest.tag_name@ != current@ ==> names_readable(names_of(latest.assets@), os@),
    ensures
        latest.tag_name@ == current@ ==> r == Ok::<Option<PublishedVersion>, String>(None),
        latest.tag_name@ != current@ ==> match first_for(names_of(latest.assets@), os@) {
            Some(i) => r matches Ok(Some(v)) && v.tag_name@ == latest.tag_name@ && v.html_url@
                == latest.html_url@ && v.binary_download_url@
                == latest.assets[i].browser_download_url@,
            None => r matches Err(reason) && reason@ == "cannot get download URL for OS="@
                + os@,
        },
{
    let same = {
        let a = chars_of(latest.tag_name.as_str());
        let b = chars_of(current);
        same_chars(a.as_slice(), b.as_slice())
    };
    if same {
        Ok(None)
    } else {
        match get_download_url(&latest.assets, os) {
            Some(url) => Ok(
                Some(
                    PublishedVersion {
                        tag_name: latest.tag_name,
                        html_url: latest.html_url,
                        binary_download_url: url,
                    },
                ),
            ),
            None => {
                let mut reason = String::from_str("cannot get download URL for OS=");
                reason.append(os);
                Err(reason)
            },
        }
    }
}

} // verus!
