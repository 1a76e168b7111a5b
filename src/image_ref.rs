//! Interpretation of container image references: which registry an image
//! comes from, and how its name, tag and digest split apart.
use vstd::prelude::*;

use crate::text::{
    after_first, before_first, chars_of, count_char, count_of, ends_with, find_first, find_last,
    first_index, has_char, has_prefix, has_suffix, last_index, lemma_count_concat, lemma_count_zero, lemma_first_index_after,
    lemma_first_index_bounds, lemma_last_index_bounds, matches_at, same_chars, slice_chars, starts_with,
};

verus! {

/// The registry assumed for images that name none.
pub open spec fn default_registry() -> Seq<char> {
    "docker.io"@
}

/// Hostnames of well-known public registries. A first path segment that is
/// one of them, or ends with one of them, names a registry.
pub open spec fn known_registries() -> Seq<Seq<char>> {
    seq![
        "docker.io"@,
        "index.docker.io"@,
        "registry-1.docker.io"@,
        "ghcr.io"@,
        "gcr.io"@,
        "quay.io"@,
        "registry.k8s.io"@,
        "k8s.gcr.io"@,
        "mcr.microsoft.com"@,
        "public.ecr.aws"@,
        "amazonaws.com"@,
        "azurecr.io"@,
        "pkg.dev"@,
        "registry.gitlab.com"@,
    ]
}

/// The catalog of known registries as a table.
pub fn known_registry_table() -> (r: Vec<&'static str>)
    ensures
        r@.len() == known_registries().len(),
        forall|i: int| 0 <= i < r@.len() ==> #[trigger] r@[i]@ == known_registries()[i],
{
    vec![
        "docker.io",
        "index.docker.io",
        "registry-1.docker.io",
        "ghcr.io",
        "gcr.io",
        "quay.io",
        "registry.k8s.io",
        "k8s.gcr.io",
        "mcr.microsoft.com",
        "public.ecr.aws",
        "amazonaws.com",
        "azurecr.io",
        "pkg.dev",
        "registry.gitlab.com",
    ]
}

pub open spec fn is_known_registry(c: Seq<char>) -> bool {
    exists|i: int|
        0 <= i < known_registries().len() && (c == #[trigger] known_registries()[i] || ends_with(
            c,
            known_registries()[i],
        ))
}

pub open spec fn is_decimal_digit(c: char) -> bool {
    '0' <= c && c <= '9'
}

pub open spec fn all_digits(d: Seq<char>) -> bool {
    forall|i: int| 0 <= i < d.len() ==> is_decimal_digit(#[trigger] d[i])
}

/// The number that the decimal digits `d` write.
pub open spec fn decimal_value(d: Seq<char>) -> nat
    decreases d.len(),
{
    if d.len() == 0 {
        0
    } else {
        decimal_value(d.drop_last()) * 10 + (d.last() as nat - '0' as nat) as nat
    }
}

/// `t` is text that parses as an unsigned byte: an optional `+`, then one or
/// more decimal digits whose value is at most 255.
pub open spec fn is_byte_literal(t: Seq<char>) -> bool {
    let d = unsigned_part(t);
    d.len() > 0 && all_digits(d) && decimal_value(d) <= 255
}

/// `t` without a leading `+`.
pub open spec fn unsigned_part(t: Seq<char>) -> Seq<char> {
    if t.len() > 0 && t[0] == '+' {
        t.drop_first()
    } else {
        t
    }
}

/// `h` is `n` byte literals joined by dots.
pub open spec fn dotted_bytes(h: Seq<char>, n: nat) -> bool
    decreases n,
{
    if n <= 1 {
        is_byte_literal(h)
    } else {
        first_index(h, '.') >= 0 && is_byte_literal(before_first(h, '.')) && dotted_bytes(
            after_first(h, '.'),
            (n - 1) as nat,
        )
    }
}

/// A dotted-quad IPv4 address: four non-empty byte literals joined by dots.
pub open spec fn is_ipv4(h: Seq<char>) -> bool {
    dotted_bytes(h, 4)
}

/// A loopback registry host, with or without a port.
pub open spec fn is_loopback(c: Seq<char>) -> bool {
    c == "localhost"@ || starts_with(c, "localhost:"@) || starts_with(c, "127.0.0.1"@)
        || starts_with(c, "0.0.0.0"@)
}

/// The registry that an image reference names.
pub open spec fn registry_of(image: Seq<char>) -> Seq<char> {
    let segments = count_of(image, '/') + 1;
    let candidate = before_first(image, '/');
    if segments == 1 || (segments == 2 && !candidate.contains('.') && !candidate.contains(':')) {
        default_registry()
    } else if is_loopback(candidate) {
        candidate
    } else if is_ipv4(before_first(candidate, ':')) {
        candidate
    } else if is_known_registry(candidate) {
        candidate
    } else if candidate.contains('.') || candidate.contains(':') {
        candidate
    } else {
        default_registry()
    }
}

/// A name and the tag it carries, `"latest"` when it carries none. Only a
/// colon after the last slash (anywhere, when there is no slash) separates
/// a tag; one before it belongs to a registry port.
pub open spec fn name_and_tag(t: Seq<char>) -> (Seq<char>, Seq<char>) {
    let colon = last_index(t, ':');
    if colon >= 0 && colon > last_index(t, '/') {
        (t.take(colon), t.skip(colon + 1))
    } else {
        (t, "latest"@)
    }
}

/// An image reference split into its name and its version. With a digest
/// (`@` and what follows), the version is the tag, `@`, and the digest; a
/// missing or empty tag is `"latest"` there, so that a tag always precedes
/// the `@`.
pub open spec fn split_of(image: Seq<char>) -> (Seq<char>, Seq<char>) {
    if image.contains('@') {
        let (name, tag) = name_and_tag(before_first(image, '@'));
        let tag = if tag.len() == 0 {
            "latest"@
        } else {
            tag
        };
        (name, tag + seq!['@'] + after_first(image, '@'))
    } else {
        name_and_tag(image)
    }
}

/// `name` without the leading `registry/`, when it has one.
pub open spec fn stripped_of(name: Seq<char>, registry: Seq<char>) -> Seq<char> {
    if starts_with(name, registry.push('/')) {
        name.skip(registry.len() + 1 as int)
    } else {
        name
    }
}

/// An image reference without any `/` names the default registry.
pub proof fn lemma_single_segment_default(image: Seq<char>)
    requires
        !image.contains('/'),
    ensures
        registry_of(image) == default_registry(),
{
    lemma_count_zero(image, '/');
}

/// An image reference `ns/name` of two segments, whose first segment holds
/// neither `.` nor `:`, names the default registry.
pub proof fn lemma_two_plain_segments_default(ns: Seq<char>, name: Seq<char>)
    requires
        !ns.contains('/'),
        !name.contains('/'),
        !ns.contains('.'),
        !ns.contains(':'),
    ensures
        registry_of(ns + seq!['/'] + name) == default_registry(),
{
    let image = ns + seq!['/'] + name;
    let rest = seq!['/'] + name;
    assert(image =~= ns + rest);
    lemma_count_zero(ns, '/');
    lemma_count_zero(name, '/');
    lemma_count_concat(ns, rest, '/');
    lemma_count_concat(seq!['/'], name, '/');
    assert(seq!['/'].drop_last() =~= Seq::<char>::empty());
    assert(count_of(Seq::<char>::empty(), '/') == 0);
    assert(count_of(seq!['/'], '/') == 1);
    assert(count_of(image, '/') == 1);
    lemma_first_index_after(ns, rest, '/');
    assert(before_first(image, '/') =~= ns);
}

/// The registry of any image reference is non-empty.
pub proof fn lemma_registry_never_empty(image: Seq<char>)
    ensures
        registry_of(image).len() > 0,
{
    reveal_strlit("docker.io");
    reveal_strlit("index.docker.io");
    reveal_strlit("registry-1.docker.io");
    reveal_strlit("ghcr.io");
    reveal_strlit("gcr.io");
    reveal_strlit("quay.io");
    reveal_strlit("registry.k8s.io");
    reveal_strlit("k8s.gcr.io");
    reveal_strlit("mcr.microsoft.com");
    reveal_strlit("public.ecr.aws");
    reveal_strlit("amazonaws.com");
    reveal_strlit("azurecr.io");
    reveal_strlit("pkg.dev");
    reveal_strlit("registry.gitlab.com");
    reveal_strlit("localhost");
    reveal_strlit("localhost:");
    reveal_strlit("127.0.0.1");
    reveal_strlit("0.0.0.0");
    let candidate = before_first(image, '/');
    let host = before_first(candidate, ':');
    if is_known_registry(candidate) {
        let i = choose|i: int|
            0 <= i < known_registries().len() && (candidate == #[trigger] known_registries()[i]
                || ends_with(candidate, known_registries()[i]));
        assert(known_registries()[i].len() > 0);
    }
    if is_ipv4(host) {
        lemma_first_index_bounds(host, '.');
        lemma_first_index_bounds(candidate, ':');
        assert(host.len() > 0);
        if first_index(candidate, ':') < 0 {
            assert(candidate == host);
        }
    }
}

/// The version of an image reference never starts with `@`: a digest always
/// follows a tag, `"latest"` when none is given. With a digest the version
/// is never empty.
pub proof fn lemma_version_has_tag(image: Seq<char>)
    ensures
        split_of(image).1.len() > 0 ==> split_of(image).1[0] != '@',
        image.contains('@') ==> split_of(image).1.len() > 0,
{
    reveal_strlit("latest");
    lemma_first_index_bounds(image, '@');
    let t = if image.contains('@') {
        before_first(image, '@')
    } else {
        image
    };
    lemma_last_index_bounds(t, ':');
    let colon = last_index(t, ':');
    if colon >= 0 && colon + 1 < t.len() {
        assert(t.skip(colon + 1)[0] == t[colon + 1]);
    }
    if image.contains('@') {
        let raw = name_and_tag(t).1;
        let tag = if raw.len() == 0 {
            "latest"@
        } else {
            raw
        };
        assert((tag + seq!['@'] + after_first(image, '@'))[0] == tag[0]);
    }
}

proof fn lemma_decimal_value_grows(p: Seq<char>, q: Seq<char>)
    requires
        all_digits(p + q),
    ensures
        decimal_value(p + q) >= decimal_value(p),
    decreases q.len(),
{
    if q.len() > 0 {
        let pq = p + q;
        assert(pq.drop_last() =~= p + q.drop_last());
        assert(all_digits(p + q.drop_last())) by {
            assert forall|i: int| 0 <= i < (p + q.drop_last()).len() implies is_decimal_digit(
                #[trigger] (p + q.drop_last())[i],
            ) by {
                assert((p + q.drop_last())[i] == pq[i]);
            }
        }
        lemma_decimal_value_grows(p, q.drop_last());
        assert(is_decimal_digit(pq[pq.len() - 1]));
    }
}

/// Whether `v` is a byte literal.
fn byte_literal(v: &Vec<char>) -> (r: bool)
    ensures
        r == is_byte_literal(v@),
{
    let start: usize = if v.len() > 0 && v[0] == '+' {
        1
    } else {
        0
    };
    let ghost d = unsigned_part(v@);
    assert(d =~= v@.skip(start as int));
    if start >= v.len() {
        return false;
    }
    let mut value: u32 = 0;
    let mut i: usize = start;
    while i < v.len()
        invariant
            start <= i <= v@.len(),
            d =~= v@.skip(start as int),
            d == unsigned_part(v@),
            all_digits(v@.subrange(start as int, i as int)),
            value == decimal_value(v@.subrange(start as int, i as int)),
            value <= 255,
        decreases v.len() - i,
    {
        let c = v[i];
        if !('0' <= c && c <= '9') {
            assert(d[i - start] == c);
            assert(!is_decimal_digit(d[i - start]));
            return false;
        }
        let ghost before = v@.subrange(start as int, i as int);
        let ghost after = v@.subrange(start as int, i + 1);
        assert(after.drop_last() =~= before);
        assert(all_digits(after));
        assert(after.last() == c);
        assert(decimal_value(after) == decimal_value(before) * 10 + (c as nat - '0' as nat));
        value = value * 10 + (c as u32 - '0' as u32);
        i = i + 1;
        if value > 255 {
            proof {
                if all_digits(d) {
                    assert(d =~= after + v@.skip(i as int));
                    lemma_decimal_value_grows(after, v@.skip(i as int));
                }
            }
            return false;
        }
    }
    assert(v@.subrange(start as int, i as int) =~= d);
    true
}

/// Whether `h` is a dotted-quad IPv4 address.
fn ipv4_host(h: &Vec<char>) -> (r: bool)
    ensures
        r == is_ipv4(h@),
{
    let mut rest: Vec<char> = slice_chars(h, 0, h.len());
    assert(rest@ =~= h@);
    let mut k: usize = 0;
    while k < 3
        invariant
            k <= 3,
            is_ipv4(h@) == dotted_bytes(rest@, (4 - k) as nat),
        decreases 3 - k,
    {
        let dot = find_first(&rest, '.');
        match dot {
            None => {
                return false;
            },
            Some(i) => {
                let head = slice_chars(&rest, 0, i);
                assert(head@ =~= before_first(rest@, '.'));
                if !byte_literal(&head) {
                    return false;
                }
                assert(i < rest.len());
                let tail = slice_chars(&rest, i + 1, rest.len());
                assert(tail@ =~= after_first(rest@, '.'));
                rest = tail;
            },
        }
        k = k + 1;
    }
    byte_literal(&rest)
}

/// Whether `c` is, or ends with, a known registry.
fn known_registry(c: &Vec<char>) -> (r: bool)
    ensures
        r == is_known_registry(c@),
{
    let table = known_registry_table();
    let mut i: usize = 0;
    while i < table.len()
        invariant
            i <= table@.len(),
            table@.len() == known_registries().len(),
            forall|j: int| 0 <= j < table@.len() ==> #[trigger] table@[j]@ == known_registries()[j],
            forall|j: int|
                0 <= j < i ==> !(c@ == #[trigger] known_registries()[j] || ends_with(
                    c@,
                    known_registries()[j],
                )),
        decreases table.len() - i,
    {
        let entry = table[i];
        assert(entry@ == known_registries()[i as int]);
        if same_chars(c, &chars_of(entry)) || has_suffix(c, entry) {
            return true;
        }
        i = i + 1;
    }
    false
}

fn default_registry_string() -> (r: String)
    ensures
        r@ == default_registry(),
{
    String::from_str("docker.io")
}

/// The registry that a container image reference names: the first path
/// segment where it reads as a registry host (loopback, an IPv4 address, a
/// known public registry, or anything with a dot or a port), and the default
/// public registry otherwise.
pub fn extract_registry(image: &str) -> (r: String)
    ensures
        r@ == registry_of(image@),
        r@.len() > 0,
{
    proof {
        lemma_registry_never_empty(image@);
    }
    let v = chars_of(image);
    let slashes = count_char(&v, '/');
    proof {
        lemma_first_index_bounds(v@, '/');
        lemma_count_zero(v@, '/');
    }
    let first_slash = find_first(&v, '/');
    let cut = match first_slash {
        Some(i) => i,
        None => v.len(),
    };
    let candidate = slice_chars(&v, 0, cut);
    assert(candidate@ =~= before_first(image@, '/'));
    if slashes == 0 {
        return default_registry_string();
    }
    let has_dot = has_char(&candidate, '.');
    let has_colon = has_char(&candidate, ':');
    if slashes == 1 && !has_dot && !has_colon {
        return default_registry_string();
    }
    let candidate_str = String::from_str(image.substring_char(0, cut));
    if same_chars(&candidate, &chars_of("localhost")) || has_prefix(&candidate, "localhost:") || has_prefix(&candidate, "127.0.0.1")
        || has_prefix(&candidate, "0.0.0.0") {
        return candidate_str;
    }
    proof {
        lemma_first_index_bounds(candidate@, ':');
    }
    let host_end = match find_first(&candidate, ':') {
        Some(i) => i,
        None => candidate.len(),
    };
    let host = slice_chars(&candidate, 0, host_end);
    assert(host@ =~= before_first(candidate@, ':'));
    if ipv4_host(&host) {
        return candidate_str;
    }
    if known_registry(&candidate) {
        return candidate_str;
    }
    if has_dot || has_colon {
        return candidate_str;
    }
    default_registry_string()
}

/// Splits the first `end` characters of `s` (whose characters are `v`)
/// into name and tag. When they hold no `@`, the tag does not start with one.
fn split_name_tag(s: &str, v: &Vec<char>, end: usize) -> (r: (String, String))
    requires
        v@ == s@,
        end <= v@.len(),
    ensures
        r.0@ == name_and_tag(v@.take(end as int)).0,
        r.1@ == name_and_tag(v@.take(end as int)).1,
        !v@.take(end as int).contains('@') && r.1@.len() > 0 ==> r.1@[0] != '@',
{
    let t = slice_chars(v, 0, end);
    assert(t@ =~= v@.take(end as int));
    proof {
        lemma_last_index_bounds(t@, ':');
        lemma_last_index_bounds(t@, '/');
        reveal_strlit("latest");
    }
    let colon = find_last(&t, ':');
    let slash = find_last(&t, '/');
    if let Some(c) = colon {
        let tagged = match slash {
            Some(sl) => c > sl,
            None => true,
        };
        if tagged {
            let name = String::from_str(s.substring_char(0, c));
            assert(s@.subrange(0, c as int) =~= t@.take(c as int));
            let tag = String::from_str(s.substring_char(c + 1, end));
            assert(s@.subrange(c + 1, end as int) =~= t@.skip(c + 1));
            if c + 1 < end {
                assert(tag@[0] == t@[c + 1]);
            }
            return (name, tag);
        }
    }
    let name = String::from_str(s.substring_char(0, end));
    assert(s@.subrange(0, end as int) =~= t@);
    (name, String::from_str("latest"))
}

/// Splits a container image reference into its name (registry included) and
/// its version: the tag, `"latest"` when there is none, and with a digest
/// `tag@digest`, where a missing or empty tag is `"latest"`. The version
/// never starts with `@`.
pub fn split_image(image: &str) -> (r: (String, String))
    ensures
        (r.0@, r.1@) == split_of(image@),
        r.1@.len() > 0 ==> r.1@[0] != '@',
        image@.contains('@') ==> r.1@.len() > 0,
{
    let v = chars_of(image);
    proof {
        lemma_first_index_bounds(v@, '@');
        lemma_version_has_tag(image@);
    }
    match find_first(&v, '@') {
        Some(at) => {
            let (name, tag) = split_name_tag(image, &v, at);
            assert(v@.take(at as int) =~= before_first(image@, '@'));
            assert(at < v.len());
            let digest = image.substring_char(at + 1, v.len());
            assert(digest@ =~= after_first(image@, '@'));
            let mut version = if tag.as_str().unicode_len() == 0 {
                String::from_str("latest")
            } else {
                tag
            };
            version.append("@");
            version.append(digest);
            proof {
                reveal_strlit("@");
            }
            assert(version@ =~= split_of(image@).1);
            (name, version)
        },
        None => {
            assert(v@.take(v@.len() as int) =~= v@);
            split_name_tag(image, &v, v.len())
        },
    }
}

/// `name` with a leading `registry/` taken off, when it has one.
pub fn strip_registry(name: &str, registry: &str) -> (r: String)
    ensures
        r@ == stripped_of(name@, registry@),
{
    let nv = chars_of(name);
    let rv = chars_of(registry);
    let n = rv.len();
    if n < nv.len() {
        let head = matches_at(&nv, 0, &rv);
        let slash = nv[n] == '/';
        proof {
            let t = nv@.take(n + 1);
            if head && slash {
                assert(t =~= rv@.push('/'));
            } else {
                assert(t.drop_last() =~= nv@.subrange(0, n as int));
                assert(t[n as int] == nv@[n as int]);
                assert(rv@.push('/').drop_last() =~= rv@);
                assert(rv@.push('/')[n as int] == '/');
            }
        }
        if head && slash {
            assert(nv@.skip(n + 1) =~= nv@.subrange(n + 1, nv@.len() as int));
            return String::from_str(name.substring_char(n + 1, nv.len()));
        }
    }
    String::from_str(name)
}

} // verus!
