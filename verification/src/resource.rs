//! Decisions about fetched web resources: whether a response is an image,
//! and which extension selects the syntax highlighting of a text.

use vstd::prelude::*;

verus! {

/// `s` begins with `prefix`.
pub open spec fn has_prefix(s: Seq<char>, prefix: Seq<char>) -> bool {
    prefix.len() <= s.len() && s.subrange(0, prefix.len() as int) == prefix
}

/// `s` begins with `prefix`.
fn starts_with(s: &str, prefix: &str) -> (b: bool)
    ensures
        b == has_prefix(s@, prefix@),
{
    let n = s.unicode_len();
    let m = prefix.unicode_len();
    if m > n {
        return false;
    }
    let mut i: usize = 0;
    while i < m
        invariant
            m == prefix@.len(),
            n == s@.len(),
            m <= n,
            0 <= i <= m,
            forall|j: int| 0 <= j < i ==> s@[j] == prefix@[j],
        decreases m - i,
    {
        if s.get_char(i) != prefix.get_char(i) {
            assert(s@.subrange(0, m as int)[i as int] != prefix@[i as int]);
            return false;
        }
        i = i + 1;
    }
    assert(s@.subrange(0, m as int) =~= prefix@);
    true
}

/// A response is shown as an image when its content type (empty when the
/// response has none) begins with `image/`.
pub fn is_image_content_type(content_type: Option<&str>) -> (b: bool)
    ensures
        b == has_prefix(
            match content_type {
                Some(t) => t@,
                None => Seq::empty(),
            },
            seq!['i', 'm', 'a', 'g', 'e', '/'],
        ),
{
    proof {
        reveal_strlit("image/");
        reveal_strlit("");
        assert("image/"@ =~= seq!['i', 'm', 'a', 'g', 'e', '/']);
        assert(""@ =~= Seq::<char>::empty());
    }
    let t = match content_type {
        Some(t) => t,
        None => "",
    };
    starts_with(t, "image/")
}

/// The text after the last `.` of `url`, or all of `url` when it holds no
/// `.`.
pub open spec fn extension_of(url: Seq<char>) -> Seq<char> {
    if exists|i: int| 0 <= i < url.len() && url[i] == '.' {
        let last = choose|i: int|
            0 <= i < url.len() && url[i] == '.' && forall|j: int| i < j < url.len() ==> url[j] != '.';
        url.subrange(last + 1, url.len() as int)
    } else {
        url
    }
}

/// The extension holds no `.`, ends the address, and, when the address
/// holds a `.`, directly follows one.
pub proof fn lemma_extension_after_last_dot(url: Seq<char>)
    ensures
        extension_of(url).len() <= url.len(),
        extension_of(url) == url.subrange(url.len() - extension_of(url).len(), url.len() as int),
        forall|i: int| 0 <= i < extension_of(url).len() ==> #[trigger] extension_of(url)[i] != '.',
        (exists|i: int| 0 <= i < url.len() && url[i] == '.') ==> url[url.len() - extension_of(url).len()
            - 1] == '.',
{
    if exists|i: int| 0 <= i < url.len() && url[i] == '.' {
        let k = choose|i: int| 0 <= i < url.len() && url[i] == '.';
        lemma_last_dot_exists(url, k);
        let last = choose|i: int|
            0 <= i < url.len() && url[i] == '.' && forall|j: int| i < j < url.len() ==> url[j] != '.';
        assert(extension_of(url) == url.subrange(last + 1, url.len() as int));
        assert forall|i: int| 0 <= i < extension_of(url).len() implies #[trigger] extension_of(url)[i]
            != '.' by {
            assert(extension_of(url)[i] == url[last + 1 + i]);
        }
    } else {
        assert(url.subrange(0, url.len() as int) =~= url);
    }
}

proof fn lemma_last_dot_exists(url: Seq<char>, k: int)
    requires
        0 <= k < url.len(),
        url[k] == '.',
    ensures
        exists|i: int|
            0 <= i < url.len() && url[i] == '.' && forall|j: int| i < j < url.len() ==> url[j] != '.',
    decreases url.len() - k,
{
    if exists|m: int| k < m < url.len() && url[m] == '.' {
        let m = choose|m: int| k < m < url.len() && url[m] == '.';
        lemma_last_dot_exists(url, m);
    } else {
        assert(forall|j: int| k < j < url.len() ==> url[j] != '.');
    }
}

/// The extension that selects how a fetched text is highlighted: what
/// follows the last `.` of its address.
pub fn url_extension(url: &str) -> (ext: &str)
    ensures
        ext@ == extension_of(url@),
{
    let n = url.unicode_len();
    let mut i: usize = n;
    while i > 0
        invariant
            n == url@.len(),
            0 <= i <= n,
            forall|j: int| i <= j < n ==> url@[j] != '.',
        decreases i,
    {
        if url.get_char(i - 1) == '.' {
            let ghost k = i - 1;
            assert(0 <= k < url@.len() && url@[k] == '.' && forall|j: int| k < j < url@.len() ==> url@[j] != '.');
            proof {
                let last = choose|i: int|
                    0 <= i < url@.len() && url@[i] == '.' && forall|j: int| i < j < url@.len() ==> url@[j] != '.';
                assert(last == k) by {
                    if last < k {
                        assert(url@[k] != '.');
                    } else if last > k {
                        assert(url@[last] != '.');
                    }
                }
            }
            return url.substring_char(i, n);
        }
        i = i - 1;
    }
    assert(!exists|i: int| 0 <= i < url@.len() && url@[i] == '.');
    url.substring_char(0, n)
}

} // verus!
