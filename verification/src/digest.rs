//! Digests of crate manifests.
//!
//! A digest is the SHA-512 of a canonical text, cut to 24 bytes and
//! written in the URL-safe base64 alphabet without padding. The canonical
//! text of a pair of command and image is a JSON object with its keys in
//! order; that of a manifest is the JSON array of its pair digests.

use crate::manifest::{CommandSpec, Manifest, ManifestSpec, PackageCommand};
use crate::order::{in_order, sort_strings};
use crate::text::{
    first_index_of, join, join_strings, last_index_of, lemma_first_index_from,
    lemma_last_index_upto, opt_view, str_eq, string_from_chars, string_of, strings_view,
};
use vstd::prelude::*;

verus! {

/// The SHA-512 hash of a byte string.
pub uninterp spec fn sha512(data: Seq<u8>) -> Seq<u8>;

/// The alphabet of URL-safe base64.
pub open spec fn base64url_alphabet() -> Seq<char> {
    "ABCDEFGHIJKLMNOPQRSTUVWXYZabcdefghijklmnopqrstuvwxyz0123456789-_"@
}

/// The four characters that stand for three bytes.
pub open spec fn base64url_group(b0: u8, b1: u8, b2: u8) -> Seq<char> {
    seq![
        base64url_alphabet()[b0 as int / 4],
        base64url_alphabet()[(b0 as int % 4) * 16 + b1 as int / 16],
        base64url_alphabet()[(b1 as int % 16) * 4 + b2 as int / 64],
        base64url_alphabet()[b2 as int % 64],
    ]
}

/// The URL-safe base64 text of the first `n` groups of three bytes.
pub open spec fn base64url_groups(data: Seq<u8>, n: int) -> Seq<char>
    decreases n,
{
    if n <= 0 || 3 * n > data.len() {
        Seq::<char>::empty()
    } else {
        base64url_groups(data, n - 1) + base64url_group(
            data[3 * n - 3],
            data[3 * n - 2],
            data[3 * n - 1],
        )
    }
}

/// The URL-safe base64 text of a byte string whose length is a multiple
/// of three, so that no padding arises.
pub open spec fn base64url(data: Seq<u8>) -> Seq<char> {
    base64url_groups(data, data.len() as int / 3)
}

/// The character of one hexadecimal digit, in lower case.
pub open spec fn hex_digit(d: int) -> char {
    "0123456789abcdef"@[d]
}

/// One character as it stands inside a JSON string.
pub open spec fn json_escape(c: char) -> Seq<char> {
    if c == '"' {
        seq!['\\', '"']
    } else if c == '\\' {
        seq!['\\', '\\']
    } else if c == '\u{8}' {
        seq!['\\', 'b']
    } else if c == '\u{c}' {
        seq!['\\', 'f']
    } else if c == '\n' {
        seq!['\\', 'n']
    } else if c == '\r' {
        seq!['\\', 'r']
    } else if c == '\t' {
        seq!['\\', 't']
    } else if ' ' > c {
        seq!['\\', 'u', '0', '0', hex_digit(c as int / 16), hex_digit(c as int % 16)]
    } else {
        seq![c]
    }
}

/// The first `n` characters of a text as they stand inside a JSON string.
pub open spec fn json_escaped(text: Seq<char>, n: int) -> Seq<char>
    decreases n,
{
    if n <= 0 || n > text.len() {
        Seq::<char>::empty()
    } else {
        json_escaped(text, n - 1) + json_escape(text[n - 1])
    }
}

/// A text as a JSON string: between double quotes; a double quote and a
/// backslash escaped by a backslash; backspace, form feed, line feed,
/// carriage return and tab as `\b`, `\f`, `\n`, `\r`, `\t`; every other
/// control character as `\u00` and two hexadecimal digits.
pub open spec fn json_string(text: Seq<char>) -> Seq<char> {
    seq!['"'] + json_escaped(text, text.len() as int) + seq!['"']
}

/// Calls `Sha512::digest` of the crate `sha2`. The hash depends on the
/// bytes alone and is 64 bytes long, as the output type of the hasher fixes.
#[verifier::external_body]
fn sha512_of(data: &[u8]) -> (r: Vec<u8>)
    ensures
        r@ == sha512(data@),
        r@.len() == 64,
{
    <sha2::Sha512 as sha2::Digest>::digest(data).to_vec()
}

/// Calls `base64_url::encode`, which writes each group of three bytes as
/// four characters of the URL-safe alphabet and pads nothing. The input is
/// kept to whole groups, and small: the length that the crate computes
/// first must fit the machine word.
#[verifier::external_body]
fn base64url_of(data: &[u8]) -> (r: String)
    requires
        data@.len() <= 0x1000_0000,
        data@.len() % 3 == 0,
    ensures
        r@ == base64url(data@),
{
    base64_url::encode(data)
}

/// Calls `serde_json::to_string` on a string slice, which writes the
/// text as a JSON string. Writing a string into memory gives no error.
#[verifier::external_body]
fn json_quote(text: &str) -> (r: String)
    ensures
        r@ == json_string(text@),
{
    serde_json::to_string(text).unwrap()
}

/// The digest of a text.
pub open spec fn digest_of(text: Seq<char>) -> Seq<char> {
    base64url(sha512(vstd::utf8::encode_utf8(text)).subrange(0, 24))
}

/// Computes the digest of a text: SHA-512, the first 24 bytes of it, in
/// URL-safe base64.
pub fn sha512t24u(input: &str) -> (r: String)
    ensures
        r@ == digest_of(input@),
{
    let hash = sha512_of(input.as_bytes());
    let mut head: Vec<u8> = Vec::new();
    let mut i: usize = 0;
    while i < 24
        invariant
            i <= 24,
            hash@.len() == 64,
            head@ == hash@.subrange(0, i as int),
        decreases 24 - i,
    {
        proof {
            assert(hash@.subrange(0, i + 1) =~= hash@.subrange(0, i as int).push(hash@[i as int]));
        }
        head.push(hash[i]);
        i += 1;
    }
    base64url_of(head.as_slice())
}

/// The canonical text of a pair of command and image.
pub open spec fn pair_canonical(command: Seq<char>, image: Seq<char>) -> Seq<char> {
    "{\"command\":"@ + json_string(command) + ",\"image\":"@ + json_string(image) + "}"@
}

/// The digest of a pair of command and image.
pub open spec fn pair_digest(command: Seq<char>, image: Seq<char>) -> Seq<char> {
    digest_of(pair_canonical(command, image))
}

/// Writes the canonical text of one pair of command and image: a JSON
/// object with the key `command` before the key `image`.
pub fn canonical_pair(command: &str, image: &str) -> (r: String)
    ensures
        r@ == pair_canonical(command@, image@),
{
    let mut canonical = String::from_str("{\"command\":");
    canonical.append(json_quote(command).as_str());
    canonical.append(",\"image\":");
    canonical.append(json_quote(image).as_str());
    canonical.append("}");
    canonical
}

/// Computes the digest of one pair of command and image.
pub fn digest_pair(command: &str, image: &str) -> (r: String)
    ensures
        r@ == pair_digest(command@, image@),
{
    sha512t24u(canonical_pair(command, image).as_str())
}

/// The first `n` texts, each as a JSON string.
pub open spec fn json_strings(texts: Seq<Seq<char>>, n: int) -> Seq<Seq<char>>
    decreases n,
{
    if n <= 0 || n > texts.len() {
        Seq::empty()
    } else {
        json_strings(texts, n - 1).push(json_string(texts[n - 1]))
    }
}

/// The canonical text of a list of texts: a JSON array.
pub open spec fn array_canonical(texts: Seq<Seq<char>>) -> Seq<char> {
    seq!['['] + join(json_strings(texts, texts.len() as int), ","@) + seq![']']
}

/// The digest of a list of texts.
pub open spec fn list_digest(texts: Seq<Seq<char>>) -> Seq<char> {
    digest_of(array_canonical(texts))
}

/// Writes the canonical text of a list of texts: a JSON array of strings,
/// in the order given.
pub fn canonical_array(texts: &[String]) -> (r: String)
    ensures
        r@ == array_canonical(strings_view(texts@)),
{
    let ghost ts = strings_view(texts@);
    let mut quoted: Vec<String> = Vec::new();
    let mut i: usize = 0;
    proof {
        assert(strings_view(quoted@) =~= json_strings(ts, 0));
    }
    while i < texts.len()
        invariant
            i <= texts.len(),
            ts == strings_view(texts@),
            strings_view(quoted@) == json_strings(ts, i as int),
        decreases texts.len() - i,
    {
        assert(ts[i as int] == texts@[i as int]@);
        let q = json_quote(texts[i].as_str());
        proof {
            assert(strings_view(quoted@.push(q)) =~= strings_view(quoted@).push(q@));
        }
        quoted.push(q);
        i += 1;
    }
    let mut canonical = String::from_str("[");
    proof {
        reveal_strlit("[");
        reveal_strlit("]");
        assert("["@ =~= seq!['[']);
        assert("]"@ =~= seq![']']);
    }
    canonical.append(join_strings(&quoted, ",").as_str());
    canonical.append("]");
    canonical
}

fn digest_list(texts: &Vec<String>) -> (r: String)
    ensures
        r@ == list_digest(strings_view(texts@)),
{
    sha512t24u(canonical_array(texts.as_slice()).as_str())
}

/// The digests of a manifest, with the digest of each pair.
#[derive(Debug)]
pub struct CrateDigestResult {
    /// The digest that depends on the order of the commands.
    pub digest: String,
    /// The digest that does not: it is taken of the pair digests in order.
    pub sorted_digest: String,
    /// Command, image and pair digest, in the order of the manifest.
    pub pair_digests: Vec<(String, String, String)>,
}

/// The views of a list of pairs.
pub open spec fn pairs_view(v: Seq<(String, String)>) -> Seq<(Seq<char>, Seq<char>)> {
    Seq::new(v.len(), |i: int| (v[i].0@, v[i].1@))
}

/// The views of a list of triples.
pub open spec fn triples_view(v: Seq<(String, String, String)>) -> Seq<
    (Seq<char>, Seq<char>, Seq<char>),
> {
    Seq::new(v.len(), |i: int| (v[i].0@, v[i].1@, v[i].2@))
}

/// The digest of each pair, in order.
pub open spec fn pair_digests_of(pairs: Seq<(Seq<char>, Seq<char>)>) -> Seq<Seq<char>> {
    Seq::new(pairs.len(), |i: int| pair_digest(pairs[i].0, pairs[i].1))
}

/// Each pair with its digest, in order.
pub open spec fn pairs_with_digests(pairs: Seq<(Seq<char>, Seq<char>)>) -> Seq<
    (Seq<char>, Seq<char>, Seq<char>),
> {
    Seq::new(pairs.len(), |i: int| (pairs[i].0, pairs[i].1, pair_digest(pairs[i].0, pairs[i].1)))
}

/// Computes the digests of a list of pairs of command and image.
pub fn compute_digest_from_pairs(pairs: &[(String, String)]) -> (r: CrateDigestResult)
    ensures
        triples_view(r.pair_digests@) == pairs_with_digests(pairs_view(pairs@)),
        r.digest@ == list_digest(pair_digests_of(pairs_view(pairs@))),
        r.sorted_digest@ == list_digest(in_order(pair_digests_of(pairs_view(pairs@)))),
{
    let ghost ps = pairs_view(pairs@);
    let mut pair_digests: Vec<(String, String, String)> = Vec::new();
    let mut digest_strings: Vec<String> = Vec::new();
    let mut i: usize = 0;
    while i < pairs.len()
        invariant
            i <= pairs.len(),
            ps == pairs_view(pairs@),
            pair_digests@.len() == i,
            digest_strings@.len() == i,
            forall|j: int|
                0 <= j < i ==> (#[trigger] pair_digests@[j]).0@ == ps[j].0 && pair_digests@[j].1@
                    == ps[j].1 && pair_digests@[j].2@ == pair_digest(ps[j].0, ps[j].1),
            forall|j: int|
                0 <= j < i ==> (#[trigger] digest_strings@[j])@ == pair_digest(ps[j].0, ps[j].1),
        decreases pairs.len() - i,
    {
        assert(ps[i as int] == (pairs@[i as int].0@, pairs@[i as int].1@));
        let pd = digest_pair(pairs[i].0.as_str(), pairs[i].1.as_str());
        pair_digests.push((pairs[i].0.clone(), pairs[i].1.clone(), pd.clone()));
        digest_strings.push(pd);
        i += 1;
    }
    proof {
        assert(triples_view(pair_digests@) =~= pairs_with_digests(ps));
        assert(strings_view(digest_strings@) =~= pair_digests_of(ps));
    }
    let digest = digest_list(&digest_strings);
    let sorted = sort_strings(&digest_strings);
    let sorted_digest = digest_list(&sorted);
    CrateDigestResult { digest, sorted_digest, pair_digests }
}

/// Command and image of each command of a manifest, in order.
pub open spec fn manifest_pairs(m: ManifestSpec) -> Seq<(Seq<char>, Seq<char>)> {
    Seq::new(m.commands.len(), |i: int| (m.commands[i].command, m.commands[i].docker_image))
}

/// Computes the digests of a manifest from the images as it writes them.
pub fn crate_manifest_digest(manifest: &Manifest) -> (r: CrateDigestResult)
    ensures
        triples_view(r.pair_digests@) == pairs_with_digests(manifest_pairs(manifest@)),
        r.digest@ == list_digest(pair_digests_of(manifest_pairs(manifest@))),
        r.sorted_digest@ == list_digest(in_order(pair_digests_of(manifest_pairs(manifest@)))),
{
    let cmds = &manifest.manifest.commands;
    let mut pairs: Vec<(String, String)> = Vec::new();
    let mut i: usize = 0;
    while i < cmds.len()
        invariant
            i <= cmds.len(),
            pairs@.len() == i,
            forall|j: int|
                0 <= j < i ==> (#[trigger] pairs@[j]).0@ == cmds@[j].command@ && pairs@[j].1@
                    == cmds@[j].docker_image@,
        decreases cmds.len() - i,
    {
        pairs.push((cmds[i].command.clone(), cmds[i].docker_image.clone()));
        i += 1;
    }
    proof {
        assert(pairs_view(pairs@) =~= manifest_pairs(manifest@));
    }
    compute_digest_from_pairs(pairs.as_slice())
}

/// The content digest recorded for `image` among the first `n` records.
pub open spec fn content_digest_upto(
    records: Seq<(Seq<char>, Seq<char>)>,
    image: Seq<char>,
    n: int,
) -> Option<Seq<char>>
    decreases n,
{
    if n <= 0 || n > records.len() {
        None
    } else {
        match content_digest_upto(records, image, n - 1) {
            Some(d) => Some(d),
            None => if records[n - 1].0 == image {
                Some(records[n - 1].1)
            } else {
                None
            },
        }
    }
}

/// The content digest recorded for `image`.
pub open spec fn content_digest(records: Seq<(Seq<char>, Seq<char>)>, image: Seq<char>) -> Option<
    Seq<char>,
> {
    content_digest_upto(records, image, records.len() as int)
}

/// Command and content digest of each of the first `n` commands, or
/// nothing where the image of one of them has no record.
pub open spec fn content_pairs(
    cmds: Seq<CommandSpec>,
    records: Seq<(Seq<char>, Seq<char>)>,
    n: int,
) -> Option<Seq<(Seq<char>, Seq<char>)>>
    decreases n,
{
    if n <= 0 || n > cmds.len() {
        Some(Seq::empty())
    } else {
        match content_pairs(cmds, records, n - 1) {
            None => None,
            Some(ps) => match content_digest(records, cmds[n - 1].docker_image) {
                None => None,
                Some(d) => Some(ps.push((cmds[n - 1].command, d))),
            },
        }
    }
}

fn find_content_digest(records: &[(String, String)], image: &str) -> (r: Option<String>)
    ensures
        opt_view(r) == content_digest(pairs_view(records@), image@),
{
    let ghost rs = pairs_view(records@);
    let mut i: usize = 0;
    while i < records.len()
        invariant
            i <= records.len(),
            rs == pairs_view(records@),
            content_digest_upto(rs, image@, i as int) is None,
        decreases records.len() - i,
    {
        assert(rs[i as int] == (records@[i as int].0@, records@[i as int].1@));
        if str_eq(records[i].0.as_str(), image) {
            proof {
                lemma_content_digest_stable(rs, image@, i + 1, rs.len() as int);
            }
            return Some(records[i].1.clone());
        }
        i += 1;
    }
    None
}

/// Once a record is found among the first `n`, looking further changes nothing.
pub proof fn lemma_content_digest_stable(
    records: Seq<(Seq<char>, Seq<char>)>,
    image: Seq<char>,
    n: int,
    m: int,
)
    requires
        0 <= n <= m <= records.len(),
        content_digest_upto(records, image, n) is Some,
    ensures
        content_digest_upto(records, image, m) == content_digest_upto(records, image, n),
    decreases m - n,
{
    if n < m {
        lemma_content_digest_stable(records, image, n, m - 1);
    }
}

/// Once an image among the first `n` commands has no record, there are no
/// pairs for any longer list of commands either.
pub proof fn lemma_content_pairs_none(
    cmds: Seq<CommandSpec>,
    records: Seq<(Seq<char>, Seq<char>)>,
    n: int,
    m: int,
)
    requires
        0 <= n <= m <= cmds.len(),
        content_pairs(cmds, records, n) is None,
    ensures
        content_pairs(cmds, records, m) is None,
    decreases m - n,
{
    if n < m {
        lemma_content_pairs_none(cmds, records, n, m - 1);
    }
}

/// Computes the digests of a manifest from the content digests of its
/// images. `oci_digests` records a content digest for an image; where the
/// image of any command has no record, there is no digest.
pub fn crate_image_digest(manifest: &Manifest, oci_digests: &[(String, String)]) -> (r: Option<
    CrateDigestResult,
>)
    ensures
        match content_pairs(
            manifest@.commands,
            pairs_view(oci_digests@),
            manifest@.commands.len() as int,
        ) {
            None => r is None,
            Some(ps) => r is Some && triples_view(r->0.pair_digests@) == pairs_with_digests(ps)
                && r->0.digest@ == list_digest(pair_digests_of(ps)) && r->0.sorted_digest@
                == list_digest(in_order(pair_digests_of(ps))),
        },
{
    let cmds = &manifest.manifest.commands;
    let ghost cs = manifest@.commands;
    let ghost rs = pairs_view(oci_digests@);
    let mut pairs: Vec<(String, String)> = Vec::new();
    let mut i: usize = 0;
    proof {
        assert(pairs_view(pairs@) =~= Seq::<(Seq<char>, Seq<char>)>::empty());
    }
    while i < cmds.len()
        invariant
            i <= cmds.len(),
            cs == crate::manifest::commands_view(cmds@),
            cs == manifest@.commands,
            rs == pairs_view(oci_digests@),
            content_pairs(cs, rs, i as int) == Some(pairs_view(pairs@)),
        decreases cmds.len() - i,
    {
        assert(cs[i as int] == cmds@[i as int]@);
        match find_content_digest(oci_digests, cmds[i].docker_image.as_str()) {
            Some(d) => {
                let pair = (cmds[i].command.clone(), d);
                proof {
                    assert(pairs_view(pairs@.push(pair)) =~= pairs_view(pairs@).push(
                        (pair.0@, pair.1@),
                    ));
                }
                pairs.push(pair);
            },
            None => {
                proof {
                    assert(content_pairs(cs, rs, i + 1) is None);
                    lemma_content_pairs_none(cs, rs, i + 1, cs.len() as int);
                }
                return None;
            },
        }
        i += 1;
    }
    Some(compute_digest_from_pairs(pairs.as_slice()))
}

/// The name part of an image reference: what precedes its last `:`.
pub open spec fn image_name_part(image: Seq<char>) -> Seq<char> {
    let k = last_index_of(image, ':');
    if k >= 0 {
        image.subrange(0, k)
    } else {
        image
    }
}

/// The tag of an image reference: what follows its last `:`, or `latest`.
pub open spec fn image_ref_tag(image: Seq<char>) -> Seq<char> {
    let k = last_index_of(image, ':');
    if k >= 0 {
        image.subrange(k + 1, image.len() as int)
    } else {
        "latest"@
    }
}

/// Whether the first component of a name part names a registry host: it
/// holds a dot or a colon.
pub open spec fn has_registry_host(name_part: Seq<char>) -> bool {
    let k = first_index_of(name_part, '/');
    k >= 0 && (name_part.subrange(0, k).contains('.') || name_part.subrange(0, k).contains(':'))
}

/// The registry of an image reference: its first component where that
/// names a host, else the default registry.
pub open spec fn image_registry(image: Seq<char>) -> Seq<char> {
    let np = image_name_part(image);
    if has_registry_host(np) {
        np.subrange(0, first_index_of(np, '/'))
    } else {
        "registry-1.docker.io"@
    }
}

/// The repository of an image reference: what follows the registry
/// host; the whole name where no host is named; and below `library` where
/// the name has one component only.
pub open spec fn image_repository(image: Seq<char>) -> Seq<char> {
    let np = image_name_part(image);
    let k = first_index_of(np, '/');
    if has_registry_host(np) {
        np.subrange(k + 1, np.len() as int)
    } else if k >= 0 {
        np
    } else {
        "library/"@ + np
    }
}

/// Splits an image reference into registry, repository and tag.
pub fn parse_image_ref(image: &str) -> (r: (String, String, String))
    ensures
        r.0@ == image_registry(image@),
        r.1@ == image_repository(image@),
        r.2@ == image_ref_tag(image@),
{
    let p = crate::text::chars_of(image);
    let (name_end, tag) = match crate::text::find_last(&p, ':') {
        Some(k) => {
            proof {
                lemma_last_index_upto(p@, ':', p@.len() as int);
            }
            (k, string_of(&p, k + 1, p.len()))
        },
        None => (p.len(), String::from_str("latest")),
    };
    let np = crate::text::chars_of(string_of(&p, 0, name_end).as_str());
    proof {
        assert(p@.subrange(0, p@.len() as int) =~= p@);
        assert(np@ == image_name_part(p@));
    }
    match crate::text::find_first(&np, '/') {
        Some(k) => {
            proof {
                lemma_first_index_from(np@, '/', 0);
            }
            let first = crate::text::chars_of(string_of(&np, 0, k).as_str());
            if crate::text::chars_contain(&first, '.') || crate::text::chars_contain(&first, ':') {
                (string_from_chars(&first), string_of(&np, k + 1, np.len()), tag)
            } else {
                (String::from_str("registry-1.docker.io"), string_from_chars(&np), tag)
            }
        },
        None => {
            let mut repo = String::from_str("library/");
            repo.append(string_from_chars(&np).as_str());
            (String::from_str("registry-1.docker.io"), repo, tag)
        },
    }
}

/// The address under which a registry answers for the manifest of an image.
pub open spec fn registry_manifest_url(image: Seq<char>) -> Seq<char> {
    "https://"@ + image_registry(image) + "/v2/"@ + image_repository(image) + "/manifests/"@
        + image_ref_tag(image)
}

/// The address to ask for the content digest of `image`.
pub fn oci_manifest_url(image: &str) -> (r: String)
    ensures
        r@ == registry_manifest_url(image@),
{
    let (registry, repo, tag) = parse_image_ref(image);
    let mut r = String::from_str("https://");
    r.append(registry.as_str());
    r.append("/v2/");
    r.append(repo.as_str());
    r.append("/manifests/");
    r.append(tag.as_str());
    r
}

/// The names of a list of commands, in order.
pub open spec fn names_of(cmds: Seq<CommandSpec>) -> Seq<Seq<char>> {
    Seq::new(cmds.len(), |i: int| cmds[i].command)
}

/// Whether some command of the list is called `name`.
pub open spec fn declares(cmds: Seq<CommandSpec>, name: Seq<char>) -> bool {
    crate::dispatch::find_command(cmds, name) is Some
}

/// Those of the first `n` names that `cmds` declares, where `declared`
/// holds, or does not declare, where it does not; in order.
pub open spec fn kept_names(
    names: Seq<Seq<char>>,
    cmds: Seq<CommandSpec>,
    declared: bool,
    n: int,
) -> Seq<Seq<char>>
    decreases n,
{
    if n <= 0 || n > names.len() {
        Seq::empty()
    } else if declares(cmds, names[n - 1]) == declared {
        kept_names(names, cmds, declared, n - 1).push(names[n - 1])
    } else {
        kept_names(names, cmds, declared, n - 1)
    }
}

/// The distinct names of a list of commands, in the order in which each
/// first occurs.
pub open spec fn distinct_names(cmds: Seq<CommandSpec>) -> Seq<Seq<char>> {
    crate::manifest::merge(Seq::empty(), names_of(cmds))
}

/// The names that `a` declares and `b` does not, each once, in order of texts.
pub open spec fn names_only_in(a: Seq<CommandSpec>, b: Seq<CommandSpec>) -> Seq<Seq<char>> {
    let d = distinct_names(a);
    in_order(kept_names(d, b, false, d.len() as int))
}

/// The names that both `a` and `b` declare, each once, in order of texts.
pub open spec fn shared_names(a: Seq<CommandSpec>, b: Seq<CommandSpec>) -> Seq<Seq<char>> {
    let d = distinct_names(a);
    in_order(kept_names(d, b, true, d.len() as int))
}

/// The image of the last of the first `n` commands that is called `name`.
pub open spec fn last_image_upto(cmds: Seq<CommandSpec>, name: Seq<char>, n: int) -> Option<
    Seq<char>,
>
    decreases n,
{
    if n <= 0 || n > cmds.len() {
        None
    } else if cmds[n - 1].command == name {
        Some(cmds[n - 1].docker_image)
    } else {
        last_image_upto(cmds, name, n - 1)
    }
}

/// The image that a list of commands binds to `name`: where the name is
/// declared more than once, the last declaration counts.
pub open spec fn image_of(cmds: Seq<CommandSpec>, name: Seq<char>) -> Option<Seq<char>> {
    last_image_upto(cmds, name, cmds.len() as int)
}

/// How many of the first `n` names are bound to the same image by `a` and `b`.
pub open spec fn same_image_count(
    names: Seq<Seq<char>>,
    a: Seq<CommandSpec>,
    b: Seq<CommandSpec>,
    n: int,
) -> nat
    decreases n,
{
    if n <= 0 || n > names.len() {
        0
    } else if image_of(a, names[n - 1]) == image_of(b, names[n - 1]) {
        same_image_count(names, a, b, n - 1) + 1
    } else {
        same_image_count(names, a, b, n - 1)
    }
}

/// A command that two manifests bind to different images.
#[derive(Debug)]
pub struct CommandImageDiff {
    pub command: String,
    pub a_image: String,
    pub b_image: String,
}

/// The mathematical value of a [`CommandImageDiff`].
pub struct ImageDiffSpec {
    pub command: Seq<char>,
    pub a_image: Seq<char>,
    pub b_image: Seq<char>,
}

impl View for CommandImageDiff {
    type V = ImageDiffSpec;

    open spec fn view(&self) -> ImageDiffSpec {
        ImageDiffSpec { command: self.command@, a_image: self.a_image@, b_image: self.b_image@ }
    }
}

/// The views of a list of differences.
pub open spec fn diffs_view(v: Seq<CommandImageDiff>) -> Seq<ImageDiffSpec> {
    Seq::new(v.len(), |i: int| v[i]@)
}

/// The text of an optional text, empty where there is none.
pub open spec fn text_or_empty(o: Option<Seq<char>>) -> Seq<char> {
    match o {
        Some(t) => t,
        None => Seq::empty(),
    }
}

/// A difference for each of the first `n` names that `a` and `b` bind to
/// different images, in order.
pub open spec fn image_diffs(
    names: Seq<Seq<char>>,
    a: Seq<CommandSpec>,
    b: Seq<CommandSpec>,
    n: int,
) -> Seq<ImageDiffSpec>
    decreases n,
{
    if n <= 0 || n > names.len() {
        Seq::empty()
    } else if image_of(a, names[n - 1]) == image_of(b, names[n - 1]) {
        image_diffs(names, a, b, n - 1)
    } else {
        image_diffs(names, a, b, n - 1).push(
            ImageDiffSpec {
                command: names[n - 1],
                a_image: text_or_empty(image_of(a, names[n - 1])),
                b_image: text_or_empty(image_of(b, names[n - 1])),
            },
        )
    }
}

/// Whether the commands that both manifests declare stand in the same
/// order in both; nothing where fewer than two are shared.
pub open spec fn shared_order(a: Seq<CommandSpec>, b: Seq<CommandSpec>) -> Option<bool> {
    if shared_names(a, b).len() >= 2 {
        Some(
            kept_names(names_of(a), b, true, a.len() as int) == kept_names(
                names_of(b),
                a,
                true,
                b.len() as int,
            ),
        )
    } else {
        None
    }
}

/// How two manifests differ.
#[derive(Debug)]
pub struct ManifestComparison {
    pub digest_a: String,
    pub digest_b: String,
    /// How many commands the first manifest has.
    pub a_count: usize,
    /// How many commands the second manifest has.
    pub b_count: usize,
    /// How many shared names are bound to the same image in both.
    pub a_and_b_count: usize,
    pub a_only: Vec<String>,
    pub b_only: Vec<String>,
    pub same_order: Option<bool>,
    pub image_diffs: Vec<CommandImageDiff>,
}

fn command_names(cmds: &[PackageCommand]) -> (r: Vec<String>)
    ensures
        strings_view(r@) == names_of(crate::manifest::commands_view(cmds@)),
{
    let mut r: Vec<String> = Vec::new();
    let mut i: usize = 0;
    while i < cmds.len()
        invariant
            i <= cmds.len(),
            r@.len() == i,
            forall|j: int| 0 <= j < i ==> (#[trigger] r@[j])@ == cmds@[j].command@,
        decreases cmds.len() - i,
    {
        r.push(cmds[i].command.clone());
        i += 1;
    }
    proof {
        assert(strings_view(r@) =~= names_of(crate::manifest::commands_view(cmds@)));
    }
    r
}

fn keep_names(names: &Vec<String>, cmds: &[PackageCommand], declared: bool) -> (r: Vec<String>)
    ensures
        strings_view(r@) == kept_names(
            strings_view(names@),
            crate::manifest::commands_view(cmds@),
            declared,
            names@.len() as int,
        ),
{
    let ghost ns = strings_view(names@);
    let ghost cs = crate::manifest::commands_view(cmds@);
    let mut r: Vec<String> = Vec::new();
    let mut i: usize = 0;
    proof {
        assert(strings_view(r@) =~= kept_names(ns, cs, declared, 0));
    }
    while i < names.len()
        invariant
            i <= names.len(),
            ns == strings_view(names@),
            cs == crate::manifest::commands_view(cmds@),
            strings_view(r@) == kept_names(ns, cs, declared, i as int),
        decreases names.len() - i,
    {
        assert(ns[i as int] == names@[i as int]@);
        let found = crate::dispatch::find_command_in(cmds, names[i].as_str()).is_some();
        if found == declared {
            let item = names[i].clone();
            proof {
                assert(strings_view(r@.push(item)) =~= strings_view(r@).push(item@));
            }
            r.push(item);
        }
        i += 1;
    }
    r
}

fn last_image(cmds: &[PackageCommand], name: &str) -> (r: Option<String>)
    ensures
        opt_view(r) == image_of(crate::manifest::commands_view(cmds@), name@),
{
    let ghost cs = crate::manifest::commands_view(cmds@);
    let mut i: usize = cmds.len();
    while i > 0
        invariant
            i <= cmds.len(),
            cs == crate::manifest::commands_view(cmds@),
            image_of(cs, name@) == last_image_upto(cs, name@, i as int),
        decreases i,
    {
        assert(cs[i - 1] == cmds@[i - 1]@);
        if str_eq(cmds[i - 1].command.as_str(), name) {
            return Some(cmds[i - 1].docker_image.clone());
        }
        i -= 1;
    }
    None
}

fn same_texts(a: &Vec<String>, b: &Vec<String>) -> (r: bool)
    ensures
        r == (strings_view(a@) == strings_view(b@)),
{
    if a.len() != b.len() {
        proof {
            assert(strings_view(a@).len() != strings_view(b@).len());
        }
        return false;
    }
    let mut i: usize = 0;
    while i < a.len()
        invariant
            i <= a.len(),
            a.len() == b.len(),
            forall|j: int| 0 <= j < i ==> strings_view(a@)[j] == strings_view(b@)[j],
        decreases a.len() - i,
    {
        if !str_eq(a[i].as_str(), b[i].as_str()) {
            proof {
                assert(strings_view(a@)[i as int] != strings_view(b@)[i as int]);
            }
            return false;
        }
        i += 1;
    }
    proof {
        assert(strings_view(a@) =~= strings_view(b@));
    }
    true
}

fn distinct_command_names(cmds: &[PackageCommand]) -> (r: Vec<String>)
    ensures
        strings_view(r@) == distinct_names(crate::manifest::commands_view(cmds@)),
{
    let names = command_names(cmds);
    let mut r: Vec<String> = Vec::new();
    proof {
        assert(strings_view(r@) =~= Seq::<Seq<char>>::empty());
    }
    crate::manifest::merge_lists(&mut r, names.as_slice());
    r
}

/// Compares two manifests: their digests, the commands that only one of
/// them declares, the shared commands bound to another image, and whether
/// the shared commands stand in the same order.
pub fn compare_manifests(a: &Manifest, b: &Manifest) -> (r: ManifestComparison)
    ensures
        r.digest_a@ == list_digest(pair_digests_of(manifest_pairs(a@))),
        r.digest_b@ == list_digest(pair_digests_of(manifest_pairs(b@))),
        r.a_count == a@.commands.len(),
        r.b_count == b@.commands.len(),
        strings_view(r.a_only@) == names_only_in(a@.commands, b@.commands),
        strings_view(r.b_only@) == names_only_in(b@.commands, a@.commands),
        r.a_and_b_count == same_image_count(
            shared_names(a@.commands, b@.commands),
            a@.commands,
            b@.commands,
            shared_names(a@.commands, b@.commands).len() as int,
        ),
        diffs_view(r.image_diffs@) == image_diffs(
            shared_names(a@.commands, b@.commands),
            a@.commands,
            b@.commands,
            shared_names(a@.commands, b@.commands).len() as int,
        ),
        r.same_order == shared_order(a@.commands, b@.commands),
{
    let ac = a.manifest.commands.as_slice();
    let bc = b.manifest.commands.as_slice();
    let ghost acs = a@.commands;
    let ghost bcs = b@.commands;
    let digest_a = crate_manifest_digest(a).digest;
    let digest_b = crate_manifest_digest(b).digest;
    let a_names = distinct_command_names(ac);
    let b_names = distinct_command_names(bc);
    let a_only = sort_strings(&keep_names(&a_names, bc, false));
    let b_only = sort_strings(&keep_names(&b_names, ac, false));
    let shared = sort_strings(&keep_names(&a_names, bc, true));
    let ghost sh = strings_view(shared@);
    let mut identical: usize = 0;
    let mut diffs: Vec<CommandImageDiff> = Vec::new();
    let mut i: usize = 0;
    proof {
        assert(diffs_view(diffs@) =~= image_diffs(sh, acs, bcs, 0));
    }
    while i < shared.len()
        invariant
            i <= shared.len(),
            sh == strings_view(shared@),
            acs == crate::manifest::commands_view(ac@),
            bcs == crate::manifest::commands_view(bc@),
            identical == same_image_count(sh, acs, bcs, i as int),
            identical <= i,
            diffs_view(diffs@) == image_diffs(sh, acs, bcs, i as int),
        decreases shared.len() - i,
    {
        assert(sh[i as int] == shared@[i as int]@);
        let a_img = last_image(ac, shared[i].as_str());
        let b_img = last_image(bc, shared[i].as_str());
        let same = match (&a_img, &b_img) {
            (Some(x), Some(y)) => str_eq(x.as_str(), y.as_str()),
            (None, None) => true,
            _ => false,
        };
        if same {
            identical += 1;
        } else {
            let d = CommandImageDiff {
                command: shared[i].clone(),
                a_image: match a_img {
                    Some(x) => x,
                    None => String::new(),
                },
                b_image: match b_img {
                    Some(y) => y,
                    None => String::new(),
                },
            };
            proof {
                assert(diffs_view(diffs@.push(d)) =~= diffs_view(diffs@).push(d@));
            }
            diffs.push(d);
        }
        i += 1;
    }
    let same_order = if shared.len() >= 2 {
        let a_order = keep_names(&command_names(ac), bc, true);
        let b_order = keep_names(&command_names(bc), ac, true);
        Some(same_texts(&a_order, &b_order))
    } else {
        None
    };
    ManifestComparison {
        digest_a,
        digest_b,
        a_count: ac.len(),
        b_count: bc.len(),
        a_and_b_count: identical,
        a_only,
        b_only,
        same_order,
        image_diffs: diffs,
    }
}


/// The images of a list of commands, each once, in the order in which
/// each first occurs.
pub open spec fn images_of(cmds: Seq<CommandSpec>) -> Seq<Seq<char>> {
    crate::manifest::merge(Seq::empty(), Seq::new(cmds.len(), |i: int| cmds[i].docker_image))
}

/// The images whose content digests have to be asked for: those of the
/// commands of the manifest, each once.
pub fn distinct_images(manifest: &Manifest) -> (r: Vec<String>)
    ensures
        strings_view(r@) == images_of(manifest@.commands),
{
    let cmds = &manifest.manifest.commands;
    let mut images: Vec<String> = Vec::new();
    let mut i: usize = 0;
    while i < cmds.len()
        invariant
            i <= cmds.len(),
            images@.len() == i,
            forall|j: int| 0 <= j < i ==> (#[trigger] images@[j])@ == cmds@[j].docker_image@,
        decreases cmds.len() - i,
    {
        images.push(cmds[i].docker_image.clone());
        i += 1;
    }
    let mut r: Vec<String> = Vec::new();
    proof {
        assert(strings_view(r@) =~= Seq::<Seq<char>>::empty());
        assert(strings_view(images@) =~= Seq::new(
            manifest@.commands.len(),
            |i: int| manifest@.commands[i].docker_image,
        ));
    }
    crate::manifest::merge_lists(&mut r, images.as_slice());
    r
}

/// The digest of a cached crate and whether it has to be written beside
/// the manifest: the one already written there where there is one; else
/// the one computed from the manifest, which is then to be written; and
/// nothing where the crate is not cached.
pub fn ensure_crate_manifest_digest(sidecar: Option<String>, manifest: Option<&Manifest>) -> (r: (
    Option<String>,
    bool,
))
    ensures
        opt_view(r.0) == (match sidecar {
            Some(d) => Some(d@),
            None => match manifest {
                Some(m) => Some(list_digest(pair_digests_of(manifest_pairs(m@)))),
                None => None,
            },
        }),
        r.1 == (sidecar is None && manifest is Some),
{
    match sidecar {
        Some(d) => (Some(d), false),
        None => match manifest {
            Some(m) => (Some(crate_manifest_digest(m).digest), true),
            None => (None, false),
        },
    }
}


} // verus!
