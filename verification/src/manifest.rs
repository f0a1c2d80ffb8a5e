//! Crate references and the manifest data model.
//!
//! A crate reference names a crate as `namespace/name:tag`. Each component is
//! restricted to letters, digits, `.`, `_` and `-`, because references become
//! path segments and appear in generated command lines.

use crate::text::{
    chars_of, clone_opt, clone_strings, ends_with, find_first, find_last, first_index_of,
    last_index_of, lemma_first_index_from, lemma_first_index_is, lemma_last_index_is,
    lemma_last_index_upto, list_contains, opt_view, split, split_str, starts_with, str_ends_with,
    str_starts_with, str_starts_with_char, string_from_chars, string_of, strings_view, trim,
    trimmed,
};
use vstd::prelude::*;

verus! {

/// The three components of a crate reference.
#[derive(Debug)]
pub struct CrateVars {
    pub namespace: String,
    pub crate_name: String,
    pub tag: String,
}

/// The mathematical value of a [`CrateVars`].
pub struct CrateRef {
    pub namespace: Seq<char>,
    pub crate_name: Seq<char>,
    pub tag: Seq<char>,
}

impl View for CrateVars {
    type V = CrateRef;

    open spec fn view(&self) -> CrateRef {
        CrateRef { namespace: self.namespace@, crate_name: self.crate_name@, tag: self.tag@ }
    }
}

impl Clone for CrateVars {
    fn clone(&self) -> (r: Self)
        ensures
            r@ == self@,
    {
        CrateVars {
            namespace: self.namespace.clone(),
            crate_name: self.crate_name.clone(),
            tag: self.tag.clone(),
        }
    }
}

/// Whether `c` may appear in a component of a crate reference.
pub open spec fn is_component_char(c: char) -> bool {
    ('a' <= c && c <= 'z') || ('A' <= c && c <= 'Z') || ('0' <= c && c <= '9') || c == '-' || c
        == '_' || c == '.'
}

/// Whether `s` is an acceptable component: not empty, allowed characters only.
pub open spec fn is_valid_component(s: Seq<char>) -> bool {
    s.len() > 0 && forall|i: int| 0 <= i < s.len() ==> is_component_char(#[trigger] s[i])
}

/// The canonical display form `namespace/name:tag`.
pub open spec fn display_form(r: CrateRef) -> Seq<char> {
    r.namespace + seq!['/'] + r.crate_name + seq![':'] + r.tag
}

impl CrateRef {
    /// Whether all three components are acceptable.
    pub open spec fn well_formed(self) -> bool {
        is_valid_component(self.namespace) && is_valid_component(self.crate_name)
            && is_valid_component(self.tag)
    }
}

impl CrateVars {
    /// The reference as `namespace/crate_name:tag`.
    pub fn display_name(&self) -> (s: String)
        ensures
            s@ == display_form(self@),
    {
        let mut s = self.namespace.clone();
        s.push('/');
        s.append(self.crate_name.as_str());
        s.push(':');
        s.append(self.tag.as_str());
        proof {
            assert(s@ =~= display_form(self@));
        }
        s
    }
}

/// Which component of a reference a validation error speaks of.
#[derive(Clone, Copy, Debug, PartialEq, Eq, Structural)]
pub enum Component {
    Namespace,
    CrateName,
    Tag,
}

/// What is wrong with a component.
#[derive(Clone, Copy, Debug, PartialEq, Eq, Structural)]
pub enum ComponentFault {
    /// The component has no characters.
    Empty,
    /// The component holds a character outside the allowed set.
    Invalid,
}

/// A malformed crate reference.
#[derive(Debug)]
pub struct ReferenceError {
    pub component: Component,
    pub fault: ComponentFault,
    /// The offending component as it was written.
    pub text: String,
}

/// The mathematical value of a [`ReferenceError`].
pub struct ReferenceFault {
    pub component: Component,
    pub fault: ComponentFault,
    pub text: Seq<char>,
}

impl View for ReferenceError {
    type V = ReferenceFault;

    open spec fn view(&self) -> ReferenceFault {
        ReferenceFault { component: self.component, fault: self.fault, text: self.text@ }
    }
}

impl Clone for ReferenceError {
    fn clone(&self) -> (r: Self)
        ensures
            r@ == self@,
    {
        ReferenceError { component: self.component, fault: self.fault, text: self.text.clone() }
    }
}

/// The word that error messages use for a component.
pub open spec fn component_label(c: Component) -> Seq<char> {
    match c {
        Component::Namespace => "namespace"@,
        Component::CrateName => "crate name"@,
        Component::Tag => "tag"@,
    }
}

/// The text of the message for a malformed reference.
pub open spec fn reference_error_message(e: ReferenceFault) -> Seq<char> {
    match e.fault {
        ComponentFault::Empty => "Empty "@ + component_label(e.component) + " in crate path"@,
        ComponentFault::Invalid => "Invalid "@ + component_label(e.component) + " '"@ + e.text
            + "': only alphanumeric characters, hyphens, underscores, and dots are allowed"@,
    }
}

impl ReferenceError {
    /// The human-readable message.
    pub fn message(&self) -> (s: String)
        ensures
            s@ == reference_error_message(self@),
    {
        let label = match self.component {
            Component::Namespace => "namespace",
            Component::CrateName => "crate name",
            Component::Tag => "tag",
        };
        match self.fault {
            ComponentFault::Empty => {
                let mut s = String::from_str("Empty ");
                s.append(label);
                s.append(" in crate path");
                s
            },
            ComponentFault::Invalid => {
                let mut s = String::from_str("Invalid ");
                s.append(label);
                s.append(" '");
                s.append(self.text.as_str());
                s.append(
                    "': only alphanumeric characters, hyphens, underscores, and dots are allowed",
                );
                s
            },
        }
    }
}

/// What validation says of one component.
pub open spec fn component_fault(s: Seq<char>) -> Option<ComponentFault> {
    if s.len() == 0 {
        Some(ComponentFault::Empty)
    } else if !is_valid_component(s) {
        Some(ComponentFault::Invalid)
    } else {
        None
    }
}

/// Executable test for [`is_component_char`].
pub fn component_char_ok(c: char) -> (ok: bool)
    ensures
        ok == is_component_char(c),
{
    ('a' <= c && c <= 'z') || ('A' <= c && c <= 'Z') || ('0' <= c && c <= '9') || c == '-' || c
        == '_' || c == '.'
}

/// Checks that a component is not empty and holds allowed characters only.
pub fn validate_crate_component(s: &str, component: Component) -> (r: Result<(), ReferenceError>)
    ensures
        match r {
            Ok(_) => component_fault(s@) is None,
            Err(e) => component_fault(s@) == Some(e.fault) && e.component == component && e.text@
                == s@,
        },
{
    let v = chars_of(s);
    if v.len() == 0 {
        return Err(
            ReferenceError { component, fault: ComponentFault::Empty, text: String::from_str(s) },
        );
    }
    let mut i: usize = 0;
    while i < v.len()
        invariant
            i <= v.len(),
            v@ == s@,
            forall|j: int| 0 <= j < i ==> is_component_char(#[trigger] v@[j]),
        decreases v.len() - i,
    {
        if !component_char_ok(v[i]) {
            return Err(
                ReferenceError {
                    component,
                    fault: ComponentFault::Invalid,
                    text: String::from_str(s),
                },
            );
        }
        i += 1;
    }
    Ok(())
}

/// The text before the tag separator, which is the last `:`.
pub open spec fn name_part_of(p: Seq<char>) -> Seq<char> {
    let k = last_index_of(p, ':');
    if k >= 0 {
        p.subrange(0, k)
    } else {
        p
    }
}

/// The tag: what follows the last `:`, or `default`.
pub open spec fn tag_of(p: Seq<char>) -> Seq<char> {
    let k = last_index_of(p, ':');
    if k >= 0 {
        p.subrange(k + 1, p.len() as int)
    } else {
        "default"@
    }
}

/// The namespace: what precedes the first `/` of the name part, or the default.
pub open spec fn namespace_of(name_part: Seq<char>, default_namespace: Seq<char>) -> Seq<char> {
    let k = first_index_of(name_part, '/');
    if k >= 0 {
        name_part.subrange(0, k)
    } else {
        default_namespace
    }
}

/// The crate name: what follows the first `/` of the name part, or all of it.
pub open spec fn crate_name_of(name_part: Seq<char>) -> Seq<char> {
    let k = first_index_of(name_part, '/');
    if k >= 0 {
        name_part.subrange(k + 1, name_part.len() as int)
    } else {
        name_part
    }
}

/// The components that a reference text splits into, before validation.
pub open spec fn split_reference(path: Seq<char>, default_namespace: Seq<char>) -> CrateRef {
    CrateRef {
        namespace: namespace_of(name_part_of(path), default_namespace),
        crate_name: crate_name_of(name_part_of(path)),
        tag: tag_of(path),
    }
}

/// The first fault among the components, namespace first, then name, then tag.
pub open spec fn first_fault(r: CrateRef) -> Option<ReferenceFault> {
    if component_fault(r.namespace) is Some {
        Some(
            ReferenceFault {
                component: Component::Namespace,
                fault: component_fault(r.namespace)->0,
                text: r.namespace,
            },
        )
    } else if component_fault(r.crate_name) is Some {
        Some(
            ReferenceFault {
                component: Component::CrateName,
                fault: component_fault(r.crate_name)->0,
                text: r.crate_name,
            },
        )
    } else if component_fault(r.tag) is Some {
        Some(
            ReferenceFault {
                component: Component::Tag,
                fault: component_fault(r.tag)->0,
                text: r.tag,
            },
        )
    } else {
        None
    }
}

/// What parsing a reference text gives. The text is split as it is
/// written, so whitespace anywhere in it lands in a component and is
/// rejected there.
pub open spec fn parse_reference(path: Seq<char>, default_namespace: Seq<char>) -> Result<
    CrateRef,
    ReferenceFault,
> {
    let r = split_reference(path, default_namespace);
    match first_fault(r) {
        Some(e) => Err(e),
        None => Ok(r),
    }
}

/// The views of a parse result.
pub open spec fn parsed_view(r: Result<CrateVars, ReferenceError>) -> Result<
    CrateRef,
    ReferenceFault,
> {
    match r {
        Ok(cv) => Ok(cv@),
        Err(e) => Err(e@),
    }
}

/// Parses a reference such as `namespace/crate:tag`.
///
/// Without `:` the tag is `default`; without `/` the namespace is
/// `default_namespace`. The text is taken as it is written: whitespace in
/// it, also at either end, makes the reference malformed.
pub fn parse_registry_path(path: &str, default_namespace: &str) -> (r: Result<
    CrateVars,
    ReferenceError,
>)
    ensures
        parsed_view(r) == parse_reference(path@, default_namespace@),
        r is Ok ==> r->Ok_0@.well_formed(),
{
    let p = chars_of(path);
    let (name_end, tag) = match find_last(&p, ':') {
        Some(k) => {
            proof {
                lemma_last_index_upto(p@, ':', p@.len() as int);
            }
            (k, string_of(&p, k + 1, p.len()))
        },
        None => (p.len(), String::from_str("default")),
    };
    let name_part = chars_of(string_of(&p, 0, name_end).as_str());
    proof {
        assert(p@.subrange(0, p@.len() as int) =~= p@);
        assert(name_part@ == name_part_of(p@));
        assert(tag@ == tag_of(p@));
    }
    let (namespace, crate_name) = match find_first(&name_part, '/') {
        Some(k) => {
            proof {
                lemma_first_index_from(name_part@, '/', 0);
            }
            (string_of(&name_part, 0, k), string_of(&name_part, k + 1, name_part.len()))
        },
        None => (String::from_str(default_namespace), string_from_chars(&name_part)),
    };
    match validate_crate_component(namespace.as_str(), Component::Namespace) {
        Err(e) => {
            return Err(e);
        },
        Ok(_) => {},
    }
    match validate_crate_component(crate_name.as_str(), Component::CrateName) {
        Err(e) => {
            return Err(e);
        },
        Ok(_) => {},
    }
    match validate_crate_component(tag.as_str(), Component::Tag) {
        Err(e) => {
            return Err(e);
        },
        Ok(_) => {},
    }
    Ok(CrateVars { namespace, crate_name, tag })
}

/// The views of a list of references.
pub open spec fn refs_view(v: Seq<CrateVars>) -> Seq<CrateRef> {
    Seq::new(v.len(), |i: int| v[i]@)
}

/// What parsing the first `n` pieces gives: the first fault, or every reference.
pub open spec fn parse_references_upto(
    pieces: Seq<Seq<char>>,
    default_namespace: Seq<char>,
    n: int,
) -> Result<Seq<CrateRef>, ReferenceFault>
    decreases n,
{
    if n <= 0 || n > pieces.len() {
        Ok(Seq::<CrateRef>::empty())
    } else {
        match parse_references_upto(pieces, default_namespace, n - 1) {
            Err(e) => Err(e),
            Ok(rs) => match parse_reference(trim(pieces[n - 1]), default_namespace) {
                Err(e) => Err(e),
                Ok(r) => Ok(rs.push(r)),
            },
        }
    }
}

/// What parsing a comma-separated list of references gives. Whitespace
/// around a piece of the list belongs to the list, not to the reference.
pub open spec fn parse_references(paths: Seq<char>, default_namespace: Seq<char>) -> Result<
    Seq<CrateRef>,
    ReferenceFault,
> {
    let pieces = split(paths, ',');
    parse_references_upto(pieces, default_namespace, pieces.len() as int)
}

/// The views of the result of parsing a list.
pub open spec fn parsed_list_view(r: Result<Vec<CrateVars>, ReferenceError>) -> Result<
    Seq<CrateRef>,
    ReferenceFault,
> {
    match r {
        Ok(v) => Ok(refs_view(v@)),
        Err(e) => Err(e@),
    }
}

/// Parses comma-separated references, in order. Whitespace around each
/// piece is dropped before the piece is parsed. The first malformed
/// reference fails the whole list.
pub fn parse_registry_paths(paths: &str, default_namespace: &str) -> (r: Result<
    Vec<CrateVars>,
    ReferenceError,
>)
    ensures
        parsed_list_view(r) == parse_references(paths@, default_namespace@),
        r is Ok ==> forall|i: int|
            0 <= i < r->Ok_0@.len() ==> (#[trigger] r->Ok_0@[i])@.well_formed(),
{
    let pieces = split_str(paths, ',');
    let ghost ps = strings_view(pieces@);
    let mut out: Vec<CrateVars> = Vec::new();
    let mut i: usize = 0;
    proof {
        assert(refs_view(out@) =~= Seq::<CrateRef>::empty());
    }
    while i < pieces.len()
        invariant
            i <= pieces.len(),
            ps == strings_view(pieces@),
            ps == split(paths@, ','),
            parse_references_upto(ps, default_namespace@, i as int) == Ok::<
                Seq<CrateRef>,
                ReferenceFault,
            >(refs_view(out@)),
            forall|j: int| 0 <= j < out@.len() ==> (#[trigger] out@[j])@.well_formed(),
        decreases pieces.len() - i,
    {
        assert(ps[i as int] == pieces@[i as int]@);
        let piece = trimmed(pieces[i].as_str());
        match parse_registry_path(piece.as_str(), default_namespace) {
            Err(e) => {
                proof {
                    assert(parse_references_upto(ps, default_namespace@, i + 1) == Err::<
                        Seq<CrateRef>,
                        ReferenceFault,
                    >(e@));
                    lemma_parse_references_fails(ps, default_namespace@, i + 1, ps.len() as int);
                }
                return Err(e);
            },
            Ok(cv) => {
                proof {
                    assert(refs_view(out@.push(cv)) =~= refs_view(out@).push(cv@));
                }
                out.push(cv);
            },
        }
        i += 1;
    }
    Ok(out)
}

/// Once a prefix of the pieces fails, every longer prefix fails the same way.
pub proof fn lemma_parse_references_fails(
    pieces: Seq<Seq<char>>,
    default_namespace: Seq<char>,
    n: int,
    m: int,
)
    requires
        0 <= n <= m <= pieces.len(),
        parse_references_upto(pieces, default_namespace, n) is Err,
    ensures
        parse_references_upto(pieces, default_namespace, m) == parse_references_upto(
            pieces,
            default_namespace,
            n,
        ),
    decreases m - n,
{
    if n < m {
        lemma_parse_references_fails(pieces, default_namespace, n, m - 1);
    }
}

/// A reference built from allowed characters, written in its display form
/// and parsed again, gives back the same three components, whatever the
/// default namespace.
pub proof fn lemma_display_round_trip(r: CrateRef, default_namespace: Seq<char>)
    requires
        r.well_formed(),
    ensures
        parse_reference(display_form(r), default_namespace) == Ok::<CrateRef, ReferenceFault>(r),
{
    let d = display_form(r);
    let a = r.namespace.len() as int;
    let b = r.crate_name.len() as int;
    let k = a + 1 + b;
    assert(d.len() == k + 1 + r.tag.len());
    assert(d[0] == r.namespace[0]);
    assert(d[d.len() - 1] == r.tag[r.tag.len() - 1]);
    assert(is_component_char(r.namespace[0]));
    assert(is_component_char(r.tag[r.tag.len() - 1]));
    assert(d[k] == ':');
    assert forall|j: int| k < j < d.len() implies d[j] != ':' by {
        assert(d[j] == r.tag[j - k - 1]);
        assert(is_component_char(r.tag[j - k - 1]));
    }
    lemma_last_index_is(d, ':', d.len() as int, k);
    let np = name_part_of(d);
    assert(np =~= r.namespace + seq!['/'] + r.crate_name);
    assert(tag_of(d) =~= r.tag);
    assert(np[a] == '/');
    assert forall|j: int| 0 <= j < a implies np[j] != '/' by {
        assert(np[j] == r.namespace[j]);
        assert(is_component_char(r.namespace[j]));
    }
    lemma_first_index_is(np, '/', 0, a);
    assert(namespace_of(np, default_namespace) =~= r.namespace);
    assert(crate_name_of(np) =~= r.crate_name);
}

/// A reference text is rejected whenever it holds, anywhere, a character
/// that is neither allowed in a component nor one of the separators `/`
/// and `:`. A semicolon, a backtick, `$`, `(`, a quote and a space are
/// such characters.
pub proof fn lemma_unsafe_character_rejected(
    path: Seq<char>,
    default_namespace: Seq<char>,
    i: int,
)
    requires
        0 <= i < path.len(),
        !is_component_char(path[i]),
        path[i] != '/',
        path[i] != ':',
    ensures
        parse_reference(path, default_namespace) is Err,
{
    let p = path;
    let c = p[i];
    let r = split_reference(path, default_namespace);
    let k = last_index_of(p, ':');
    lemma_last_index_upto(p, ':', p.len() as int);
    if k >= 0 && i > k {
        assert(r.tag[i - k - 1] == c);
        assert(!is_valid_component(r.tag));
    } else {
        let np = name_part_of(p);
        assert(np[i] == c);
        let f = first_index_of(np, '/');
        lemma_first_index_from(np, '/', 0);
        if f >= 0 && i < f {
            assert(r.namespace[i] == c);
            assert(!is_valid_component(r.namespace));
        } else if f >= 0 {
            assert(r.crate_name[i - f - 1] == c);
            assert(!is_valid_component(r.crate_name));
        } else {
            assert(r.crate_name[i] == c);
            assert(!is_valid_component(r.crate_name));
        }
    }
}

/// A reference text is accepted exactly where the three components it
/// splits into are acceptable, and the result is then those components.
pub proof fn lemma_parse_accepts_well_formed(path: Seq<char>, default_namespace: Seq<char>)
    ensures
        parse_reference(path, default_namespace) is Ok <==> split_reference(
            path,
            default_namespace,
        ).well_formed(),
        parse_reference(path, default_namespace) is Ok ==> parse_reference(path, default_namespace)
            == Ok::<CrateRef, ReferenceFault>(split_reference(path, default_namespace)),
{
}

/// A container-backed command of a manifest.
#[derive(Debug)]
pub struct PackageCommand {
    pub command: String,
    pub docker_image: String,
    pub docker_command: Option<String>,
    pub docker_args: Option<String>,
    pub dockerargs: Option<String>,
    pub apptainer_args: Option<String>,
    pub apptainer_command: Option<String>,
    pub volumes: Vec<String>,
    pub envvars: Vec<String>,
    pub no_user: bool,
    pub no_network: bool,
    pub no_default_volumes: bool,
    pub workdir: Option<String>,
}

/// The mathematical value of a [`PackageCommand`].
pub struct CommandSpec {
    pub command: Seq<char>,
    pub docker_image: Seq<char>,
    pub docker_command: Option<Seq<char>>,
    pub docker_args: Option<Seq<char>>,
    pub dockerargs: Option<Seq<char>>,
    pub apptainer_args: Option<Seq<char>>,
    pub apptainer_command: Option<Seq<char>>,
    pub volumes: Seq<Seq<char>>,
    pub envvars: Seq<Seq<char>>,
    pub no_user: bool,
    pub no_network: bool,
    pub no_default_volumes: bool,
    pub workdir: Option<Seq<char>>,
}

impl View for PackageCommand {
    type V = CommandSpec;

    open spec fn view(&self) -> CommandSpec {
        CommandSpec {
            command: self.command@,
            docker_image: self.docker_image@,
            docker_command: opt_view(self.docker_command),
            docker_args: opt_view(self.docker_args),
            dockerargs: opt_view(self.dockerargs),
            apptainer_args: opt_view(self.apptainer_args),
            apptainer_command: opt_view(self.apptainer_command),
            volumes: strings_view(self.volumes@),
            envvars: strings_view(self.envvars@),
            no_user: self.no_user,
            no_network: self.no_network,
            no_default_volumes: self.no_default_volumes,
            workdir: opt_view(self.workdir),
        }
    }
}

/// The command that has empty texts, no lists and no flag set.
pub open spec fn empty_command() -> CommandSpec {
    CommandSpec {
        command: Seq::empty(),
        docker_image: Seq::empty(),
        docker_command: None,
        docker_args: None,
        dockerargs: None,
        apptainer_args: None,
        apptainer_command: None,
        volumes: Seq::empty(),
        envvars: Seq::empty(),
        no_user: false,
        no_network: false,
        no_default_volumes: false,
        workdir: None,
    }
}

impl Default for PackageCommand {
    fn default() -> (r: Self)
        ensures
            r@ == empty_command(),
    {
        let r = PackageCommand {
            command: String::new(),
            docker_image: String::new(),
            docker_command: None,
            docker_args: None,
            dockerargs: None,
            apptainer_args: None,
            apptainer_command: None,
            volumes: Vec::new(),
            envvars: Vec::new(),
            no_user: false,
            no_network: false,
            no_default_volumes: false,
            workdir: None,
        };
        proof {
            assert(strings_view(r.volumes@) =~= Seq::<Seq<char>>::empty());
            assert(strings_view(r.envvars@) =~= Seq::<Seq<char>>::empty());
        }
        r
    }
}

impl Clone for PackageCommand {
    fn clone(&self) -> (r: Self)
        ensures
            r@ == self@,
    {
        PackageCommand {
            command: self.command.clone(),
            docker_image: self.docker_image.clone(),
            docker_command: clone_opt(&self.docker_command),
            docker_args: clone_opt(&self.docker_args),
            dockerargs: clone_opt(&self.dockerargs),
            apptainer_args: clone_opt(&self.apptainer_args),
            apptainer_command: clone_opt(&self.apptainer_command),
            volumes: clone_strings(&self.volumes),
            envvars: clone_strings(&self.envvars),
            no_user: self.no_user,
            no_network: self.no_network,
            no_default_volumes: self.no_default_volumes,
            workdir: clone_opt(&self.workdir),
        }
    }
}

/// The views of a list of commands.
pub open spec fn commands_view(v: Seq<PackageCommand>) -> Seq<CommandSpec> {
    Seq::new(v.len(), |i: int| v[i]@)
}

/// A copy of a list of commands.
pub fn clone_commands(v: &Vec<PackageCommand>) -> (r: Vec<PackageCommand>)
    ensures
        commands_view(r@) == commands_view(v@),
{
    let mut r: Vec<PackageCommand> = Vec::new();
    let mut i: usize = 0;
    while i < v.len()
        invariant
            i <= v.len(),
            r@.len() == i,
            forall|j: int| 0 <= j < i ==> r@[j]@ == v@[j]@,
        decreases v.len() - i,
    {
        r.push(v[i].clone());
        i += 1;
    }
    proof {
        assert(commands_view(r@) =~= commands_view(v@));
    }
    r
}

/// What a manifest declares: its commands, the host commands it passes
/// through, and the crates it imports.
#[derive(Debug)]
pub struct ManifestInner {
    pub name: Option<String>,
    pub version: Option<String>,
    pub commands: Vec<PackageCommand>,
    pub host_commands: Vec<String>,
    pub imports: Vec<String>,
}

/// The mathematical value of a manifest.
pub struct ManifestSpec {
    pub name: Option<Seq<char>>,
    pub version: Option<Seq<char>>,
    pub commands: Seq<CommandSpec>,
    pub host_commands: Seq<Seq<char>>,
    pub imports: Seq<Seq<char>>,
}

impl View for ManifestInner {
    type V = ManifestSpec;

    open spec fn view(&self) -> ManifestSpec {
        ManifestSpec {
            name: opt_view(self.name),
            version: opt_view(self.version),
            commands: commands_view(self.commands@),
            host_commands: strings_view(self.host_commands@),
            imports: strings_view(self.imports@),
        }
    }
}

impl Clone for ManifestInner {
    fn clone(&self) -> (r: Self)
        ensures
            r@ == self@,
    {
        ManifestInner {
            name: clone_opt(&self.name),
            version: clone_opt(&self.version),
            commands: clone_commands(&self.commands),
            host_commands: clone_strings(&self.host_commands),
            imports: clone_strings(&self.imports),
        }
    }
}

/// A manifest document: one `manifest` entry at the top level.
#[derive(Debug)]
pub struct Manifest {
    pub manifest: ManifestInner,
}

impl View for Manifest {
    type V = ManifestSpec;

    open spec fn view(&self) -> ManifestSpec {
        self.manifest@
    }
}

impl Clone for Manifest {
    fn clone(&self) -> (r: Self)
        ensures
            r@ == self@,
    {
        Manifest { manifest: self.manifest.clone() }
    }
}

/// `all` followed by `piece`, with one space between them unless `all` is empty.
pub open spec fn append_arg(all: Seq<char>, piece: Seq<char>) -> Seq<char> {
    if all.len() > 0 {
        all + seq![' '] + piece
    } else {
        piece
    }
}

/// As [`append_arg`], but an empty `piece` changes nothing.
pub open spec fn append_nonempty_arg(all: Seq<char>, piece: Seq<char>) -> Seq<char> {
    if piece.len() == 0 {
        all
    } else {
        append_arg(all, piece)
    }
}

/// `all` followed by the first `n` of `extras`, empty ones left out.
pub open spec fn append_extras(all: Seq<char>, extras: Seq<Seq<char>>, n: int) -> Seq<char>
    decreases n,
{
    if n <= 0 || n > extras.len() {
        all
    } else {
        append_nonempty_arg(append_extras(all, extras, n - 1), extras[n - 1])
    }
}

/// The arguments that the manifest itself declares for the engine:
/// `dockerargs`, then `docker_args`.
pub open spec fn declared_docker_args(c: CommandSpec) -> Seq<char> {
    let first = match c.dockerargs {
        Some(a) => a,
        None => Seq::<char>::empty(),
    };
    match c.docker_args {
        Some(a) => append_arg(first, a),
        None => first,
    }
}

/// The merged engine arguments: what the manifest declares, then each
/// non-empty extra source in the order given, separated by single spaces.
pub open spec fn merged_args(c: CommandSpec, extras: Seq<Seq<char>>) -> Seq<char> {
    append_extras(declared_docker_args(c), extras, extras.len() as int)
}

/// The views of a list of string slices.
pub open spec fn strs_view(v: Seq<&str>) -> Seq<Seq<char>> {
    Seq::new(v.len(), |i: int| v[i]@)
}

impl PackageCommand {
    /// Merges the engine arguments of the command with `extra_args`, later
    /// sources after earlier ones.
    pub fn merged_docker_args(&self, extra_args: &[&str]) -> (all: String)
        ensures
            all@ == merged_args(self@, strs_view(extra_args@)),
    {
        let mut all = String::new();
        match &self.dockerargs {
            Some(da) => {
                all.append(da.as_str());
            },
            None => {},
        }
        match &self.docker_args {
            Some(da) => {
                if all.as_str().unicode_len() > 0 {
                    all.push(' ');
                }
                all.append(da.as_str());
            },
            None => {},
        }
        proof {
            assert(all@ =~= declared_docker_args(self@));
        }
        let ghost extras = strs_view(extra_args@);
        let mut i: usize = 0;
        while i < extra_args.len()
            invariant
                i <= extra_args.len(),
                extras == strs_view(extra_args@),
                all@ == append_extras(declared_docker_args(self@), extras, i as int),
            decreases extra_args.len() - i,
        {
            let extra: &str = extra_args[i];
            assert(extras[i as int] == extra@);
            if extra.unicode_len() > 0 {
                if all.as_str().unicode_len() > 0 {
                    all.push(' ');
                }
                all.append(extra);
            }
            proof {
                assert(all@ =~= append_extras(declared_docker_args(self@), extras, i + 1));
            }
            i += 1;
        }
        all
    }
}

/// `primary` followed by those of the first `n` items of `secondary` that
/// were not yet present when their turn came.
pub open spec fn merged_list(primary: Seq<Seq<char>>, secondary: Seq<Seq<char>>, n: int) -> Seq<
    Seq<char>,
>
    decreases n,
{
    if n <= 0 || n > secondary.len() {
        primary
    } else {
        let m = merged_list(primary, secondary, n - 1);
        if m.contains(secondary[n - 1]) {
            m
        } else {
            m.push(secondary[n - 1])
        }
    }
}

/// `primary` with every item of `secondary` that it lacks appended, in order.
pub open spec fn merge(primary: Seq<Seq<char>>, secondary: Seq<Seq<char>>) -> Seq<Seq<char>> {
    merged_list(primary, secondary, secondary.len() as int)
}

/// Appends to `primary` each item of `secondary` that is not yet in it. The
/// order of `primary` is kept and new items come in the order of `secondary`.
pub fn merge_lists(primary: &mut Vec<String>, secondary: &[String])
    ensures
        strings_view(final(primary)@) == merge(strings_view(old(primary)@), strings_view(secondary@)),
{
    let ghost before = strings_view(primary@);
    let ghost sec = strings_view(secondary@);
    let mut i: usize = 0;
    while i < secondary.len()
        invariant
            i <= secondary.len(),
            sec == strings_view(secondary@),
            strings_view(primary@) == merged_list(before, sec, i as int),
        decreases secondary.len() - i,
    {
        let item = &secondary[i];
        assert(sec[i as int] == item@);
        if !list_contains(primary, item.as_str()) {
            proof {
                assert(strings_view(primary@.push(*item)) =~= strings_view(primary@).push(item@));
            }
            primary.push(item.clone());
            proof {
                assert(strings_view(primary@) =~= merged_list(before, sec, i as int).push(item@));
            }
        }
        i += 1;
    }
}

/// Whether no item occurs twice.
pub open spec fn no_duplicates(s: Seq<Seq<char>>) -> bool {
    forall|i: int, j: int| 0 <= i < j < s.len() ==> s[i] != s[j]
}

/// Merging keeps `primary` as a prefix, adds nothing but items of
/// `secondary`, leaves out none of them, and adds no duplicate.
pub proof fn lemma_merge_properties(primary: Seq<Seq<char>>, secondary: Seq<Seq<char>>, n: int)
    requires
        0 <= n <= secondary.len(),
    ensures
        ({
            let m = merged_list(primary, secondary, n);
            &&& primary.len() <= m.len()
            &&& m.subrange(0, primary.len() as int) == primary
            &&& forall|i: int| 0 <= i < n ==> m.contains(#[trigger] secondary[i])
            &&& forall|i: int|
                primary.len() <= i < m.len() ==> secondary.subrange(0, n).contains(#[trigger] m[i])
            &&& no_duplicates(primary) ==> no_duplicates(m)
        }),
    decreases n,
{
    let m = merged_list(primary, secondary, n);
    if n == 0 {
        assert(m.subrange(0, primary.len() as int) =~= primary);
    } else {
        lemma_merge_properties(primary, secondary, n - 1);
        let prev = merged_list(primary, secondary, n - 1);
        let x = secondary[n - 1];
        assert(m.subrange(0, primary.len() as int) =~= prev.subrange(0, primary.len() as int));
        assert(secondary.subrange(0, n)[n - 1] == x);
        assert forall|i: int| 0 <= i < n implies m.contains(#[trigger] secondary[i]) by {
            if i < n - 1 {
                let w = choose|w: int| 0 <= w < prev.len() && #[trigger] prev[w] == secondary[i];
                assert(m[w] == secondary[i]);
            } else if prev.contains(x) {
            } else {
                assert(m[prev.len() as int] == x);
            }
        }
        assert forall|i: int| primary.len() <= i < m.len() implies secondary.subrange(
            0,
            n,
        ).contains(#[trigger] m[i]) by {
            if i < prev.len() {
                let sub = secondary.subrange(0, n - 1);
                let w = choose|w: int| 0 <= w < sub.len() && #[trigger] sub[w] == prev[i];
                assert(secondary.subrange(0, n)[w] == m[i]);
            }
        }
    }
}

/// Whether `s` is an `http` or `https` address.
pub fn is_url(s: &str) -> (r: bool)
    ensures
        r == (starts_with(s@, "http://"@) || starts_with(s@, "https://"@)),
{
    str_starts_with(s, "http://") || str_starts_with(s, "https://")
}

/// Whether a crate argument names a local manifest file rather than a
/// registry path: it starts with `.` or `/`, or ends in `.yaml` or `.yml`.
pub fn is_local_path(s: &str) -> (r: bool)
    ensures
        r == ((s@.len() > 0 && (s@[0] == '.' || s@[0] == '/')) || ends_with(s@, ".yaml"@)
            || ends_with(s@, ".yml"@)),
{
    str_starts_with_char(s, '.') || str_starts_with_char(s, '/') || str_ends_with(s, ".yaml")
        || str_ends_with(s, ".yml")
}

/// `s` with every `/` and `.` replaced by `-`.
pub open spec fn dashed(s: Seq<char>) -> Seq<char> {
    Seq::new(
        s.len(),
        |i: int|
            if s[i] == '/' || s[i] == '.' {
                '-'
            } else {
                s[i]
            },
    )
}

/// The tag of an image reference: what follows the last `:`, or `latest`.
pub open spec fn image_tag_of(image: Seq<char>) -> Seq<char> {
    let k = last_index_of(image, ':');
    if k >= 0 {
        image.subrange(k + 1, image.len() as int)
    } else {
        "latest"@
    }
}

/// The namespace of an image: what precedes the last `/` of its name part
/// with `/` and `.` turned into `-`, or `docker` where there is no `/`.
pub open spec fn image_namespace_of(image: Seq<char>) -> Seq<char> {
    let np = name_part_of(image);
    let k = last_index_of(np, '/');
    if k >= 0 {
        dashed(np.subrange(0, k))
    } else {
        "docker"@
    }
}

/// The name of an image: the last path component of its name part.
pub open spec fn image_name_of(image: Seq<char>) -> Seq<char> {
    let np = name_part_of(image);
    let k = last_index_of(np, '/');
    if k >= 0 {
        np.subrange(k + 1, np.len() as int)
    } else {
        np
    }
}

/// Splits an image reference such as `quay.io/biocontainers/samtools:1.9`
/// into namespace, image name and tag.
pub fn parse_docker_image_path(docker_image: &str) -> (r: (String, String, String))
    ensures
        r.0@ == image_namespace_of(docker_image@),
        r.1@ == image_name_of(docker_image@),
        r.2@ == image_tag_of(docker_image@),
{
    let p = chars_of(docker_image);
    let (name_end, tag) = match find_last(&p, ':') {
        Some(k) => {
            proof {
                lemma_last_index_upto(p@, ':', p@.len() as int);
            }
            (k, string_of(&p, k + 1, p.len()))
        },
        None => (p.len(), String::from_str("latest")),
    };
    let np = chars_of(string_of(&p, 0, name_end).as_str());
    proof {
        assert(p@.subrange(0, p@.len() as int) =~= p@);
        assert(np@ == name_part_of(p@));
    }
    match find_last(&np, '/') {
        Some(k) => {
            proof {
                lemma_last_index_upto(np@, '/', np@.len() as int);
            }
            let mut namespace = String::new();
            let mut i: usize = 0;
            while i < k
                invariant
                    i <= k < np.len(),
                    namespace@ == dashed(np@.subrange(0, k as int)).subrange(0, i as int),
                decreases k - i,
            {
                let c = np[i];
                let d = if c == '/' || c == '.' {
                    '-'
                } else {
                    c
                };
                proof {
                    let full = dashed(np@.subrange(0, k as int));
                    assert(full.subrange(0, i + 1) =~= full.subrange(0, i as int).push(d));
                }
                namespace.push(d);
                i += 1;
            }
            proof {
                let full = dashed(np@.subrange(0, k as int));
                assert(full.subrange(0, k as int) =~= full);
            }
            (namespace, string_of(&np, k + 1, np.len()), tag)
        },
        None => (String::from_str("docker"), string_from_chars(&np), tag),
    }
}

/// The file name of the image file that stands for a container image.
pub open spec fn image_file_name(image: Seq<char>) -> Seq<char> {
    image_namespace_of(image) + seq!['-'] + image_name_of(image) + ".sif"@
}

/// The path of the image file: inside `folder` where one is configured.
pub open spec fn image_file_path(image: Seq<char>, folder: Option<Seq<char>>) -> Seq<char> {
    match folder {
        Some(f) => f + seq!['/'] + image_file_name(image),
        None => image_file_name(image),
    }
}

/// The view of an optional string slice.
pub open spec fn opt_str_view(o: Option<&str>) -> Option<Seq<char>> {
    match o {
        Some(s) => Some(s@),
        None => None,
    }
}

/// The image file that stands for `docker_image`: its file name, and its
/// path inside `image_folder` where one is given.
pub fn apptainer_image_paths(docker_image: &str, image_folder: Option<&str>) -> (r: (
    String,
    String,
))
    ensures
        r.0@ == image_file_name(docker_image@),
        r.1@ == image_file_path(docker_image@, opt_str_view(image_folder)),
{
    let (ns, name, _tag) = parse_docker_image_path(docker_image);
    let mut file = ns;
    file.push('-');
    file.append(name.as_str());
    file.append(".sif");
    proof {
        assert(file@ =~= image_file_name(docker_image@));
    }
    let full = match image_folder {
        Some(f) => {
            let mut full = String::from_str(f);
            full.push('/');
            full.append(file.as_str());
            proof {
                assert(full@ =~= f@ + seq!['/'] + image_file_name(docker_image@));
            }
            full
        },
        None => file.clone(),
    };
    (file, full)
}


/// `s` without the `/` characters at its end.
pub open spec fn without_trailing_slashes(s: Seq<char>) -> Seq<char>
    decreases s.len(),
{
    if s.len() > 0 && s[s.len() - 1] == '/' {
        without_trailing_slashes(s.subrange(0, s.len() - 1))
    } else {
        s
    }
}

/// The address of the manifest of a crate at a registry: the file
/// `namespace/name.yaml` for the tag `default`, and `namespace/name_tag.yaml`
/// for every other tag.
pub open spec fn manifest_url(registry_url: Seq<char>, r: CrateRef) -> Seq<char> {
    let base = without_trailing_slashes(registry_url) + seq!['/'] + r.namespace + seq!['/']
        + r.crate_name;
    if r.tag == "default"@ {
        base + ".yaml"@
    } else {
        base + seq!['_'] + r.tag + ".yaml"@
    }
}

/// The address to fetch the manifest of `cratevars` from: `filepath`
/// where one is given, else the address at the registry.
pub fn build_manifest_url(registry_url: &str, cratevars: &CrateVars, filepath: Option<&str>) -> (r:
    String)
    ensures
        r@ == (match filepath {
            Some(f) => f@,
            None => manifest_url(registry_url@, cratevars@),
        }),
{
    match filepath {
        Some(f) => {
            return String::from_str(f);
        },
        None => {},
    }
    let v = chars_of(registry_url);
    let mut end: usize = v.len();
    proof {
        assert(v@.subrange(0, v@.len() as int) =~= v@);
    }
    while end > 0 && v[end - 1] == '/'
        invariant
            end <= v.len(),
            without_trailing_slashes(v@) == without_trailing_slashes(v@.subrange(0, end as int)),
        decreases end,
    {
        proof {
            assert(v@.subrange(0, end as int).subrange(0, end - 1) =~= v@.subrange(0, end - 1));
        }
        end -= 1;
    }
    proof {
        assert(v@.subrange(0, v@.len() as int) =~= v@);
    }
    let mut r = string_of(&v, 0, end);
    r.push('/');
    r.append(cratevars.namespace.as_str());
    r.push('/');
    r.append(cratevars.crate_name.as_str());
    if !crate::text::str_eq(cratevars.tag.as_str(), "default") {
        r.push('_');
        r.append(cratevars.tag.as_str());
    }
    r.append(".yaml");
    proof {
        assert(r@ =~= manifest_url(registry_url@, cratevars@));
    }
    r
}


/// The reference under which a manifest read from a local file is cached:
/// the namespace `local`, the stem of the file name, or `local` where the
/// file name has none, and the tag `default`.
pub fn local_crate_vars(file_stem: Option<&str>) -> (cv: CrateVars)
    ensures
        cv@ == (CrateRef {
            namespace: "local"@,
            crate_name: match file_stem {
                Some(s) => s@,
                None => "local"@,
            },
            tag: "default"@,
        }),
{
    CrateVars {
        namespace: String::from_str("local"),
        crate_name: match file_stem {
            Some(s) => String::from_str(s),
            None => String::from_str("local"),
        },
        tag: String::from_str("default"),
    }
}


/// A small manifest for trying things out: one command called `name`,
/// bound to the image `test/name:latest`, and the imports given.
pub fn make_manifest_with_imports(name: &str, imports: Vec<String>) -> (m: Manifest)
    ensures
        m@.name == Some(name@),
        m@.version is None,
        m@.commands.len() == 1,
        m@.commands[0] == (CommandSpec {
            command: name@,
            docker_image: "test/"@ + name@ + ":latest"@,
            ..empty_command()
        }),
        m@.host_commands.len() == 0,
        m@.imports == strings_view(imports@),
{
    let mut image = String::from_str("test/");
    image.append(name);
    image.append(":latest");
    let mut command = PackageCommand::default();
    command.command = String::from_str(name);
    command.docker_image = image;
    let mut commands: Vec<PackageCommand> = Vec::new();
    commands.push(command);
    Manifest {
        manifest: ManifestInner {
            name: Some(String::from_str(name)),
            version: None,
            commands,
            host_commands: Vec::new(),
            imports,
        },
    }
}


} // verus!
