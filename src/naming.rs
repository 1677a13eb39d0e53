//! Endpoint names derived from a session path, so that client and server
//! reach the same name without talking first.
use vstd::prelude::*;
use vstd::string::*;

verus! {

/// The components of `path`, as `std::path::Path::components` splits it.
pub uninterp spec fn path_components(path: Seq<char>) -> Seq<Seq<char>>;

/// Relies on `std::path::Path::components`: the components of a path depend
/// on its text alone. Each component of a `&str` path is valid UTF-8, so
/// none is lost in the conversion.
#[verifier::external_body]
fn components_of(path: &str) -> (r: Vec<String>)
    ensures
        r@.map_values(|c: String| c@) == path_components(path@),
{
    let mut r: Vec<String> = Vec::new();
    for c in std::path::Path::new(path).components() {
        r.push(c.as_os_str().to_string_lossy().into_owned());
    }
    r
}

pub open spec fn is_separator(c: char) -> bool {
    c == '\\' || c == '/' || c == ':'
}

/// `s` with each path separator (`\`, `/`, `:`) replaced by `-`.
pub open spec fn sanitized(s: Seq<char>) -> Seq<char> {
    s.map_values(|c: char| if is_separator(c) { '-' } else { c })
}

pub open spec fn name_prefix() -> Seq<char> {
    seq!['z', 'e', 'l', 'l', 'i', 'j', '-']
}

/// The suffix of the name for the server-to-client direction.
pub open spec fn reverse_suffix() -> Seq<char> {
    seq!['-', 's', 'r', 'v']
}

/// The endpoint name for a path with components `components` and text
/// `path`: the prefix, then the last two components joined by `-`, then
/// `suffix`; with fewer than two components, the whole path sanitized.
pub open spec fn pipe_name_of(components: Seq<Seq<char>>, path: Seq<char>, suffix: Seq<char>) -> Seq<char> {
    if components.len() >= 2 {
        name_prefix() + components[components.len() - 2] + seq!['-'] + components[components.len()
            - 1] + suffix
    } else {
        name_prefix() + sanitized(path) + suffix
    }
}

proof fn lemma_sanitized_concat(a: Seq<char>, b: Seq<char>)
    ensures
        sanitized(a + b) == sanitized(a) + sanitized(b),
{
    assert(sanitized(a + b) =~= sanitized(a) + sanitized(b));
}

/// `s` with each of `\`, `/` and `:` replaced by `-`.
pub fn sanitize(s: &str) -> (r: String)
    ensures
        r@ == sanitized(s@),
{
    let n = s.unicode_len();
    let mut out = String::new();
    let mut start: usize = 0;
    let mut i: usize = 0;
    while i < n
        invariant
            n == s@.len(),
            start <= i <= n,
            out@ == sanitized(s@.subrange(0, start as int)),
            forall|k: int| start <= k < i ==> !is_separator(#[trigger] s@[k]),
        decreases n - i,
    {
        let c = s.get_char(i);
        if c == '\\' || c == '/' || c == ':' {
            let run = s.substring_char(start, i);
            proof {
                lemma_sanitized_concat(s@.subrange(0, start as int), s@.subrange(start as int, i as int));
                lemma_sanitized_concat(s@.subrange(0, i as int), seq![c]);
                assert(sanitized(run@) =~= run@);
                assert(s@.subrange(0, start as int) + s@.subrange(start as int, i as int) =~= s@.subrange(0, i as int));
                assert(s@.subrange(0, i as int) + seq![c] =~= s@.subrange(0, i + 1));
                reveal_strlit("-");
                assert(sanitized(seq![c]) =~= "-"@);
            }
            out.append(run);
            out.append("-");
            start = i + 1;
        }
        i = i + 1;
    }
    let run = s.substring_char(start, n);
    proof {
        lemma_sanitized_concat(s@.subrange(0, start as int), s@.subrange(start as int, n as int));
        assert(sanitized(run@) =~= run@);
        assert(s@.subrange(0, start as int) + s@.subrange(start as int, n as int) =~= s@);
    }
    out.append(run);
    out
}

/// The endpoint name from the components and text of a path (see
/// `pipe_name_of`).
pub fn pipe_name_from_components(components: &Vec<String>, path: &str, suffix: &str) -> (r: String)
    ensures
        r@ == pipe_name_of(components@.map_values(|c: String| c@), path@, suffix@),
{
    proof {
        reveal_strlit("zellij-");
        reveal_strlit("-");
    }
    let mut out = String::from_str("zellij-");
    assert(out@ =~= name_prefix());
    let len = components.len();
    if len >= 2 {
        out.append(components[len - 2].as_str());
        out.append("-");
        out.append(components[len - 1].as_str());
        out.append(suffix);
        assert(out@ =~= pipe_name_of(components@.map_values(|c: String| c@), path@, suffix@));
    } else {
        let clean = sanitize(path);
        out.append(clean.as_str());
        out.append(suffix);
    }
    out
}

/// The name of the client-to-server endpoint for the session at `path`.
pub fn pipe_name(path: &str) -> (r: String)
    ensures
        r@ == pipe_name_of(path_components(path@), path@, Seq::<char>::empty()),
{
    let components = components_of(path);
    proof {
        reveal_strlit("");
    }
    pipe_name_from_components(&components, path, "")
}

/// The name of the server-to-client endpoint for the session at `path`:
/// the client-to-server name with the reverse suffix.
pub fn reverse_pipe_name(path: &str) -> (r: String)
    ensures
        r@ == pipe_name_of(path_components(path@), path@, reverse_suffix()),
{
    let components = components_of(path);
    proof {
        reveal_strlit("-srv");
    }
    let r = pipe_name_from_components(&components, path, "-srv");
    assert("-srv"@ =~= reverse_suffix());
    r
}

} // verus!
