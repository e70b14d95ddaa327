//! Maps Responses tool declarations to Chat function tools under names that
//! Chat accepts, and maps Chat function calls back to the declared tools.

use crate::proxy::error::{ProxyError, ProxyErrorV};
use crate::json::{json_string_field, lookup_json_string_field, JsonStringField, JsonStringFieldV};
use crate::proxy::protocol::{
    ChatTool, ChatToolParameters, ChatToolParametersV, ChatToolV, CustomTool, OutputToolCallV, ToolCallPayloadV, FunctionTool, NamespaceMember, OutputToolCall,
    ToolCallPayload, ToolDeclarationKind, ToolDefinition,
};
use crate::text::{opt_str_view, opt_string_view, char_width, chars_of, str_is, concat2, concat3, debug_str, hex_bytes, push_hex, str_debug};
use sha2::Digest;
use vstd::prelude::*;
use vstd::utf8::encode_utf8;

verus! {

/// Longest generated description of a freeform tool, in characters.
pub const MAX_CUSTOM_TOOL_DESCRIPTION_CHARS: usize = 32768;

/// Whether a declared tool takes JSON arguments or freeform input.
#[derive(Clone, Copy, Debug, PartialEq, Eq, Structural)]
pub enum ToolKind {
    Function,
    Custom,
}

/// A declared tool, as the Responses API names it.
#[derive(Clone, Debug, PartialEq, Eq)]
pub struct ToolIdentity {
    pub kind: ToolKind,
    pub namespace: Option<String>,
    pub name: String,
}

/// The value of a [`ToolIdentity`].
pub struct ToolIdentityV {
    pub kind: ToolKind,
    pub namespace: Option<Seq<char>>,
    pub name: Seq<char>,
}

impl View for ToolIdentity {
    type V = ToolIdentityV;

    open spec fn view(&self) -> ToolIdentityV {
        ToolIdentityV { kind: self.kind, namespace: opt_string_view(self.namespace), name: self.name@ }
    }
}

fn opt_to_string(s: Option<&str>) -> (res: Option<String>)
    ensures
        opt_string_view(res) == opt_str_view(s),
{
    match s {
        Some(v) => Some(String::from_str(v)),
        None => None,
    }
}

fn clone_opt_string(s: &Option<String>) -> (res: Option<String>)
    ensures
        opt_string_view(res) == opt_string_view(*s),
{
    match s {
        Some(v) => Some(v.clone()),
        None => None,
    }
}

impl ToolIdentity {
    pub fn function(name: &str, namespace: Option<&str>) -> (res: Self)
        ensures
            res@ == (ToolIdentityV { kind: ToolKind::Function, namespace: opt_str_view(namespace), name: name@ }),
    {
        ToolIdentity { kind: ToolKind::Function, namespace: opt_to_string(namespace), name: String::from_str(name) }
    }

    pub fn custom(name: &str, namespace: Option<&str>) -> (res: Self)
        ensures
            res@ == (ToolIdentityV { kind: ToolKind::Custom, namespace: opt_str_view(namespace), name: name@ }),
    {
        ToolIdentity { kind: ToolKind::Custom, namespace: opt_to_string(namespace), name: String::from_str(name) }
    }

    pub fn clone_identity(&self) -> (res: Self)
        ensures
            res@ == self@,
    {
        ToolIdentity { kind: self.kind, namespace: clone_opt_string(&self.namespace), name: self.name.clone() }
    }
}

fn opt_string_eq(a: &Option<String>, b: &Option<String>) -> (res: bool)
    ensures
        res == (opt_string_view(*a) == opt_string_view(*b)),
{
    match a {
        Some(x) => match b {
            Some(y) => *x == *y,
            None => false,
        },
        None => b.is_none(),
    }
}

/// Whether two identities name the same tool.
pub fn identity_eq(a: &ToolIdentity, b: &ToolIdentity) -> (res: bool)
    ensures
        res == (a@ == b@),
{
    a.kind == b.kind && opt_string_eq(&a.namespace, &b.namespace) && a.name == b.name
}

pub open spec fn is_chat_safe_char(c: char) -> bool {
    ||| 'a' <= c <= 'z'
    ||| 'A' <= c <= 'Z'
    ||| '0' <= c <= '9'
    ||| c == '_'
    ||| c == '-'
}

/// Whether Chat Completions accepts `name` as a function name: 1 to 64 ASCII
/// letters, digits, `_` or `-`.
pub open spec fn spec_is_chat_safe_name(name: Seq<char>) -> bool {
    &&& 0 < name.len() <= 64
    &&& forall|i: int| 0 <= i < name.len() ==> #[trigger] is_chat_safe_char(name[i])
}

pub fn is_chat_safe_name(name: &str) -> (res: bool)
    ensures
        res == spec_is_chat_safe_name(name@),
{
    let chars = chars_of(name);
    let n = chars.len();
    if n == 0 || n > 64 {
        assert(name@.len() == n);
        return false;
    }
    let mut i: usize = 0;
    while i < n
        invariant
            n == chars@.len(),
            chars@ == name@,
            i <= n,
            forall|j: int| 0 <= j < i ==> #[trigger] is_chat_safe_char(chars@[j]),
        decreases n - i,
    {
        let c = chars[i];
        if !(('a' <= c && c <= 'z') || ('A' <= c && c <= 'Z') || ('0' <= c && c <= '9') || c == '_'
            || c == '-') {
            assert(!is_chat_safe_char(chars@[i as int]));
            assert(!is_chat_safe_char(name@[i as int]));
            return false;
        }
        i += 1;
    }
    true
}

/// The SHA-256 digest of `data`.
pub uninterp spec fn sha256(data: Seq<u8>) -> Seq<u8>;

/// SHA-256 of a byte string (`<sha2::Sha256 as Digest>::digest`). The digest
/// itself is not specified; a SHA-256 digest is always 32 bytes.
#[verifier::external_body]
fn sha256_digest(data: &[u8]) -> (res: Vec<u8>)
    ensures
        res@ == sha256(data@),
        res@.len() == 32,
{
    sha2::Sha256::digest(data).to_vec()
}

pub open spec fn kind_word(kind: ToolKind) -> Seq<char> {
    match kind {
        ToolKind::Function => "function"@,
        ToolKind::Custom => "custom"@,
    }
}

pub open spec fn namespace_or_empty(namespace: Option<Seq<char>>) -> Seq<char> {
    match namespace {
        Some(n) => n,
        None => Seq::empty(),
    }
}

/// What the generated name of a tool is derived from: kind, namespace and name,
/// separated by NUL characters.
pub open spec fn safe_name_source(id: ToolIdentityV) -> Seq<char> {
    kind_word(id.kind) + seq!['\0'] + namespace_or_empty(id.namespace) + seq!['\0'] + id.name
}

/// The Chat function name of a tool: its own name when it is a plain function
/// with a Chat-safe name, otherwise `codex_<kind>_` and 24 hex digits of the
/// SHA-256 of its identity.
pub open spec fn spec_safe_name(id: ToolIdentityV) -> Seq<char> {
    if id.kind == ToolKind::Function && id.namespace is None && spec_is_chat_safe_name(id.name) {
        id.name
    } else {
        spec_generated_name(id.kind, sha256(encode_utf8(safe_name_source(id))))
    }
}

/// A generated Chat name: `codex_<kind>_` and the first 12 bytes of the
/// identity's digest in hexadecimal.
pub open spec fn spec_generated_name(kind: ToolKind, digest: Seq<u8>) -> Seq<char> {
    "codex_"@ + kind_word(kind) + "_"@ + hex_bytes(digest.subrange(0, 12))
}

proof fn lemma_hex_digit_safe(d: int)
    requires
        0 <= d < 16,
    ensures
        is_chat_safe_char(crate::text::hex_digit(d)),
{
    let c = crate::text::hex_digit(d);
    if d < 10 {
        assert(c as u32 == d + 48);
    } else {
        assert(c as u32 == d + 87);
    }
}

proof fn lemma_hex_bytes_safe(bytes: Seq<u8>)
    ensures
        hex_bytes(bytes).len() == 2 * bytes.len(),
        forall|i: int| 0 <= i < hex_bytes(bytes).len() ==> #[trigger] is_chat_safe_char(hex_bytes(bytes)[i]),
    decreases bytes.len(),
{
    if bytes.len() > 0 {
        lemma_hex_bytes_safe(bytes.drop_last());
        let b = bytes.last();
        lemma_hex_digit_safe((b / 16) as int);
        lemma_hex_digit_safe((b % 16) as int);
        let h = hex_bytes(bytes);
        let p = hex_bytes(bytes.drop_last());
        assert forall|i: int| 0 <= i < h.len() implies #[trigger] is_chat_safe_char(h[i]) by {
            if i < p.len() {
                assert(h[i] == p[i]);
            }
        }
    }
}

/// Every generated name is Chat-safe.
pub proof fn lemma_generated_name_chat_safe(kind: ToolKind, digest: Seq<u8>)
    requires
        digest.len() >= 12,
    ensures
        spec_is_chat_safe_name(spec_generated_name(kind, digest)),
{
    let h = hex_bytes(digest.subrange(0, 12));
    lemma_hex_bytes_safe(digest.subrange(0, 12));
    let pre = "codex_"@ + kind_word(kind) + "_"@;
    reveal_strlit("codex_");
    reveal_strlit("_");
    reveal_strlit("function");
    reveal_strlit("custom");
    assert forall|i: int| 0 <= i < pre.len() implies #[trigger] is_chat_safe_char(pre[i]) by {
        match kind {
            ToolKind::Function => {},
            ToolKind::Custom => {},
        }
    }
    let name = spec_generated_name(kind, digest);
    assert(name == pre + h);
    assert forall|i: int| 0 <= i < name.len() implies #[trigger] is_chat_safe_char(name[i]) by {
        if i < pre.len() {
            assert(name[i] == pre[i]);
        } else {
            assert(name[i] == h[i - pre.len()]);
        }
    }
}

/// The generated Chat name of a tool of kind `kind` whose identity has the
/// SHA-256 digest `digest`; it is always Chat-safe.
pub fn generated_name(kind: ToolKind, digest: &Vec<u8>) -> (res: String)
    requires
        digest@.len() >= 12,
    ensures
        res@ == spec_generated_name(kind, digest@),
        spec_is_chat_safe_name(res@),
{
    proof {
        lemma_generated_name_chat_safe(kind, digest@);
    }
    let kind = kind_str(kind);
    let mut out = String::from_str("codex_");
    out.append(kind);
    out.append("_");
    push_hex(&mut out, digest, 12);
    proof {
        reveal_strlit("codex_");
        reveal_strlit("_");
    }
    out
}

fn kind_str(kind: ToolKind) -> (res: &'static str)
    ensures
        res@ == kind_word(kind),
{
    match kind {
        ToolKind::Function => "function",
        ToolKind::Custom => "custom",
    }
}

/// Computes [`spec_safe_name`]; the name is always Chat-safe.
pub fn safe_name(identity: &ToolIdentity) -> (res: String)
    ensures
        res@ == spec_safe_name(identity@),
        spec_is_chat_safe_name(res@),
{
    if identity.kind == ToolKind::Function && identity.namespace.is_none() && is_chat_safe_name(
        identity.name.as_str(),
    ) {
        return identity.name.clone();
    }
    let kind = kind_str(identity.kind);
    let mut source = String::from_str(kind);
    source.append("\0");
    match &identity.namespace {
        Some(ns) => source.append(ns.as_str()),
        None => {},
    }
    source.append("\0");
    source.append(identity.name.as_str());
    proof {
        reveal_strlit("\0");
        assert(source@ =~= safe_name_source(identity@));
    }
    let digest = sha256_digest(source.as_str().as_bytes());
    generated_name(identity.kind, &digest)
}

/// `ToolIdentity`'s `{:?}` form.
pub open spec fn identity_debug(id: ToolIdentityV) -> Seq<char> {
    "ToolIdentity { kind: "@ + (match id.kind {
        ToolKind::Function => "Function"@,
        ToolKind::Custom => "Custom"@,
    }) + ", namespace: "@ + (match id.namespace {
        Some(n) => "Some("@ + str_debug(n) + ")"@,
        None => "None"@,
    }) + ", name: "@ + str_debug(id.name) + " }"@
}

fn identity_debug_string(id: &ToolIdentity) -> (res: String)
    ensures
        res@ == identity_debug(id@),
{
    let mut s = String::from_str("ToolIdentity { kind: ");
    match id.kind {
        ToolKind::Function => s.append("Function"),
        ToolKind::Custom => s.append("Custom"),
    }
    s.append(", namespace: ");
    match &id.namespace {
        Some(n) => {
            s.append("Some(");
            s.append(debug_str(n.as_str()).as_str());
            s.append(")");
        },
        None => s.append("None"),
    }
    s.append(", name: ");
    s.append(debug_str(id.name.as_str()).as_str());
    s.append(" }");
    s
}

/// The first registered identity whose Chat name is `name`.
pub open spec fn find_by_safe_name(ids: Seq<ToolIdentityV>, name: Seq<char>) -> Option<ToolIdentityV>
    decreases ids.len(),
{
    if ids.len() == 0 {
        None
    } else if spec_safe_name(ids[0]) == name {
        Some(ids[0])
    } else {
        find_by_safe_name(ids.drop_first(), name)
    }
}

/// What the registry holds: the declared identities in declaration order and
/// the Chat tools generated for them.
pub struct RegistryV {
    pub identities: Seq<ToolIdentityV>,
    pub chat_tools: Seq<ChatToolV>,
}

/// Registers one identity: rejected when it is declared twice or when its Chat
/// name is already taken; otherwise appended, with its Chat name.
pub open spec fn spec_register(ids: Seq<ToolIdentityV>, id: ToolIdentityV) -> Result<
    Seq<ToolIdentityV>,
    ProxyErrorV,
> {
    if ids.contains(id) {
        Err(ProxyErrorV::InvalidRequest("tool is declared more than once: "@ + identity_debug(id)))
    } else {
        match find_by_safe_name(ids, spec_safe_name(id)) {
            Some(existing) => Err(
                ProxyErrorV::InvalidRequest(
                    "tool name collision between "@ + identity_debug(existing) + " and "@
                        + identity_debug(id),
                ),
            ),
            None => Ok(ids.push(id)),
        }
    }
}

pub open spec fn function_description(tool: FunctionTool, namespace_description: Option<Seq<char>>) -> Seq<char> {
    match namespace_description {
        Some(d) => if d.len() > 0 {
            d + "\n\n"@ + tool.description@
        } else {
            tool.description@
        },
        None => tool.description@,
    }
}

/// Declares a function tool, possibly inside a namespace.
pub open spec fn spec_add_function(
    r: RegistryV,
    tool: FunctionTool,
    namespace: Option<Seq<char>>,
    namespace_description: Option<Seq<char>>,
) -> Result<RegistryV, ProxyErrorV> {
    if tool.defer_loading == Some(true) {
        Err(
            ProxyErrorV::Unsupported(
                "deferred loading for function tool "@ + str_debug(tool.name@)
                    + "; disable tool_search/deferred tools in the Codex model profile"@,
            ),
        )
    } else {
        let id = ToolIdentityV { kind: ToolKind::Function, namespace: namespace, name: tool.name@ };
        match spec_register(r.identities, id) {
            Err(e) => Err(e),
            Ok(ids) => Ok(
                RegistryV {
                    identities: ids,
                    chat_tools: r.chat_tools.push(
                        ChatToolV {
                            name: spec_safe_name(id),
                            description: function_description(tool, namespace_description),
                            parameters: ChatToolParametersV::Schema(tool.parameters_json@),
                            strict: tool.strict,
                        },
                    ),
                },
            ),
        }
    }
}

pub open spec fn custom_description(tool: CustomTool) -> Seq<char> {
    let format_description = "Freeform input format: type="@ + tool.format_kind@ + ", syntax="@
        + tool.format_syntax@ + ".\n"@ + tool.format_definition@;
    if tool.description@.len() == 0 {
        format_description
    } else {
        tool.description@ + "\n\n"@ + format_description
    }
}

/// Declares a freeform tool, described to Chat as a function of one string.
pub open spec fn spec_add_custom(r: RegistryV, tool: CustomTool) -> Result<RegistryV, ProxyErrorV> {
    let id = ToolIdentityV { kind: ToolKind::Custom, namespace: None, name: tool.name@ };
    match spec_register(r.identities, id) {
        Err(e) => Err(e),
        Ok(ids) => if custom_description(tool).len() > MAX_CUSTOM_TOOL_DESCRIPTION_CHARS {
            Err(
                ProxyErrorV::Unsupported(
                    "custom tool "@ + str_debug(tool.name@)
                        + " requires a generated description longer than the 32768-character V1 limit"@,
                ),
            )
        } else {
            Ok(
                RegistryV {
                    identities: ids,
                    chat_tools: r.chat_tools.push(
                        ChatToolV {
                            name: spec_safe_name(id),
                            description: custom_description(tool),
                            parameters: ChatToolParametersV::FreeformInput,
                            strict: true,
                        },
                    ),
                },
            )
        },
    }
}

/// Declares the members of a namespace, in order, stopping at the first error.
pub open spec fn spec_add_namespace_members(
    r: RegistryV,
    namespace: Seq<char>,
    description: Seq<char>,
    members: Seq<NamespaceMember>,
) -> Result<RegistryV, ProxyErrorV>
    decreases members.len(),
{
    if members.len() == 0 {
        Ok(r)
    } else {
        let next = match members[0] {
            NamespaceMember::NonFunction => Err(
                ProxyErrorV::Unsupported(
                    "namespace "@ + str_debug(namespace) + " contains a non-function tool"@,
                ),
            ),
            NamespaceMember::Malformed(e) => Err(
                ProxyErrorV::InvalidRequest(
                    "invalid function in namespace "@ + str_debug(namespace) + ": "@ + e@,
                ),
            ),
            NamespaceMember::Function(tool) => spec_add_function(
                r,
                tool,
                Some(namespace),
                Some(description),
            ),
        };
        match next {
            Err(e) => Err(e),
            Ok(r2) => spec_add_namespace_members(r2, namespace, description, members.drop_first()),
        }
    }
}

pub open spec fn malformed_message(kind: ToolDeclarationKind, error: Seq<char>) -> Seq<char> {
    match kind {
        ToolDeclarationKind::Function => "invalid function tool: "@ + error,
        ToolDeclarationKind::Namespace => "invalid namespace tool: "@ + error,
        ToolDeclarationKind::Custom => "invalid custom tool: "@ + error,
    }
}

/// Declares one entry of the `tools` array.
pub open spec fn spec_add_tool(r: RegistryV, tool: ToolDefinition) -> Result<RegistryV, ProxyErrorV> {
    match tool {
        ToolDefinition::MissingType => Err(
            ProxyErrorV::InvalidRequest("tool is missing a string type discriminator"@),
        ),
        ToolDefinition::Function(f) => spec_add_function(r, f, None, None),
        ToolDefinition::Namespace { name, description, tools } => spec_add_namespace_members(
            r,
            name@,
            description@,
            tools@,
        ),
        ToolDefinition::Custom(c) => spec_add_custom(r, c),
        ToolDefinition::Malformed { kind, error } => Err(
            ProxyErrorV::InvalidRequest(malformed_message(kind, error@)),
        ),
        ToolDefinition::Unsupported { kind } => Err(
            ProxyErrorV::Unsupported(
                "tool type "@ + str_debug(kind@) + " cannot be represented by Chat Completions"@,
            ),
        ),
    }
}

/// Declares the entries of the `tools` array in order, stopping at the first error.
pub open spec fn spec_add_tools(r: RegistryV, tools: Seq<ToolDefinition>) -> Result<
    RegistryV,
    ProxyErrorV,
>
    decreases tools.len(),
{
    if tools.len() == 0 {
        Ok(r)
    } else {
        match spec_add_tool(r, tools[0]) {
            Err(e) => Err(e),
            Ok(r2) => spec_add_tools(r2, tools.drop_first()),
        }
    }
}

pub open spec fn empty_registry() -> RegistryV {
    RegistryV { identities: Seq::empty(), chat_tools: Seq::empty() }
}

/// The registry of a request's `tools` (none when absent).
pub open spec fn spec_from_responses_tools(tools: Option<Vec<ToolDefinition>>) -> Result<
    RegistryV,
    ProxyErrorV,
> {
    match tools {
        Some(t) => spec_add_tools(empty_registry(), t@),
        None => Ok(empty_registry()),
    }
}

struct RegisteredTool {
    identity: ToolIdentity,
    safe_name: String,
}

/// The declared tools of one request.
pub struct ToolRegistry {
    entries: Vec<RegisteredTool>,
    chat_tools: Vec<ChatTool>,
}

/// The `i`-th Chat tool is named after the `i`-th declared identity.
pub open spec fn aligned(r: RegistryV) -> bool {
    &&& r.chat_tools.len() == r.identities.len()
    &&& forall|i: int|
        0 <= i < r.identities.len() ==> (#[trigger] r.chat_tools[i]).name == spec_safe_name(
            r.identities[i],
        )
}

/// No identity is declared twice and no two identities share a Chat name.
pub open spec fn registry_names_distinct(ids: Seq<ToolIdentityV>) -> bool {
    &&& forall|i: int, j: int| 0 <= i < j < ids.len() ==> ids[i] != ids[j]
    &&& forall|i: int, j: int|
        0 <= i < j < ids.len() ==> spec_safe_name(ids[i]) != spec_safe_name(ids[j])
}

impl View for ToolRegistry {
    type V = RegistryV;

    closed spec fn view(&self) -> RegistryV {
        RegistryV {
            identities: self.entries@.map_values(|e: RegisteredTool| e.identity@),
            chat_tools: self.chat_tools@.map_values(|t: ChatTool| t@),
        }
    }
}

impl ToolRegistry {
    /// The Chat tools correspond one to one, in order, to the declared identities
    /// and carry their Chat names.
    pub open spec fn tools_aligned(&self) -> bool {
        aligned(self@)
    }

    /// Entries hold the identities' Chat names, all distinct.
    pub closed spec fn wf(&self) -> bool {
        &&& forall|i: int|
            0 <= i < self.entries@.len() ==> #[trigger] self.entries@[i].safe_name@ == spec_safe_name(
                self.entries@[i].identity@,
            )
        &&& registry_names_distinct(self@.identities)
    }

    pub fn new() -> (res: Self)
        ensures
            res.wf(),
            res.tools_aligned(),
            res@ == empty_registry(),
    {
        let res = ToolRegistry { entries: Vec::new(), chat_tools: Vec::new() };
        assert(res@.identities =~= Seq::<ToolIdentityV>::empty());
        assert(res@.chat_tools =~= Seq::<ChatToolV>::empty());
        res
    }
}


proof fn lemma_find_skip(ids: Seq<ToolIdentityV>, name: Seq<char>, i: int)
    requires
        0 <= i <= ids.len(),
        forall|j: int| 0 <= j < i ==> spec_safe_name(#[trigger] ids[j]) != name,
    ensures
        find_by_safe_name(ids, name) == find_by_safe_name(ids.subrange(i, ids.len() as int), name),
    decreases i,
{
    if i == 0 {
        assert(ids.subrange(0, ids.len() as int) =~= ids);
    } else {
        assert(spec_safe_name(ids[0]) != name);
        assert(ids.drop_first().subrange(i - 1, ids.drop_first().len() as int) =~= ids.subrange(
            i,
            ids.len() as int,
        ));
        assert forall|j: int| 0 <= j < i - 1 implies spec_safe_name(
            #[trigger] ids.drop_first()[j],
        ) != name by {
            assert(ids.drop_first()[j] == ids[j + 1]);
        }
        lemma_find_skip(ids.drop_first(), name, i - 1);
    }
}

proof fn lemma_find_none(ids: Seq<ToolIdentityV>, name: Seq<char>)
    requires
        forall|j: int| 0 <= j < ids.len() ==> spec_safe_name(#[trigger] ids[j]) != name,
    ensures
        find_by_safe_name(ids, name) is None,
{
    lemma_find_skip(ids, name, ids.len() as int);
}

proof fn lemma_find_found(ids: Seq<ToolIdentityV>, name: Seq<char>, i: int)
    requires
        0 <= i < ids.len(),
        spec_safe_name(ids[i]) == name,
        forall|j: int| 0 <= j < i ==> spec_safe_name(#[trigger] ids[j]) != name,
    ensures
        find_by_safe_name(ids, name) == Some(ids[i]),
{
    lemma_find_skip(ids, name, i);
    assert(ids.subrange(i, ids.len() as int)[0] == ids[i]);
}

/// Relates an operation's outcome to its specification: on success the
/// registry holds the specified value, on failure the error is the specified one.
pub open spec fn outcome_matches(
    res: Result<(), ProxyError>,
    after: RegistryV,
    expected: Result<RegistryV, ProxyErrorV>,
) -> bool {
    match expected {
        Ok(r) => res is Ok && after == r,
        Err(e) => res matches Err(err) && err@ == e,
    }
}

fn push_chat_tool(v: &mut Vec<ChatTool>, t: ChatTool)
    ensures
        final(v)@ == old(v)@.push(t),
{
    v.push(t);
}

impl ToolRegistry {
    proof fn lemma_view_push(&self, next: &Self, e: RegisteredTool)
        requires
            next.entries@ == self.entries@.push(e),
        ensures
            next@.identities == self@.identities.push(e.identity@),
    {
        assert(next@.identities =~= self@.identities.push(e.identity@));
    }

    /// Registers `identity` and returns its Chat name.
    fn register(&mut self, identity: ToolIdentity) -> (res: Result<String, ProxyError>)
        requires
            old(self).wf(),
        ensures
            match spec_register(old(self)@.identities, identity@) {
                Ok(ids) => res matches Ok(name) && name@ == spec_safe_name(identity@)
                    && final(self)@.identities == ids && final(self)@.chat_tools == old(
                    self,
                )@.chat_tools && final(self).wf(),
                Err(e) => res matches Err(err) && err@ == e,
            },
    {
        let ghost ids = self@.identities;
        let n = self.entries.len();
        let mut i: usize = 0;
        while i < n
            invariant
                n == self.entries@.len(),
                ids == self@.identities,
                i <= n,
                forall|j: int| 0 <= j < i ==> ids[j] != identity@,
            decreases n - i,
        {
            if identity_eq(&self.entries[i].identity, &identity) {
                assert(ids[i as int] == self.entries@[i as int].identity@);
                assert(ids.contains(identity@));
                let msg = concat2(
                    "tool is declared more than once: ",
                    identity_debug_string(&identity).as_str(),
                );
                return Err(ProxyError::InvalidRequest(msg));
            }
            assert(ids[i as int] == self.entries@[i as int].identity@);
            i += 1;
        }
        assert(!ids.contains(identity@));
        let name = safe_name(&identity);
        let mut k: usize = 0;
        while k < n
            invariant
                n == self.entries@.len(),
                ids == self@.identities,
                self.wf(),
                k <= n,
                !ids.contains(identity@),
                name@ == spec_safe_name(identity@),
                forall|j: int| 0 <= j < k ==> spec_safe_name(#[trigger] ids[j]) != name@,
            decreases n - k,
        {
            assert(ids[k as int] == self.entries@[k as int].identity@);
            if self.entries[k].safe_name == name {
                proof {
                    lemma_find_found(ids, name@, k as int);
                }
                let existing = identity_debug_string(&self.entries[k].identity);
                let mut msg = String::from_str("tool name collision between ");
                msg.append(existing.as_str());
                msg.append(" and ");
                msg.append(identity_debug_string(&identity).as_str());
                return Err(ProxyError::InvalidRequest(msg));
            }
            k += 1;
        }
        proof {
            lemma_find_none(ids, name@);
        }
        let ghost before = *self;
        let entry = RegisteredTool { identity, safe_name: name.clone() };
        self.entries.push(entry);
        proof {
            before.lemma_view_push(self, entry);
            let nids = self@.identities;
            assert forall|a: int, b: int| 0 <= a < b < nids.len() implies nids[a] != nids[b] by {
                if b == nids.len() - 1 {
                    assert(nids[b] == identity@);
                    assert(nids[a] == ids[a]);
                } else {
                    assert(nids[a] == ids[a] && nids[b] == ids[b]);
                }
            }
            assert forall|a: int, b: int|
                0 <= a < b < nids.len() implies spec_safe_name(nids[a]) != spec_safe_name(
                nids[b],
            ) by {
                if b == nids.len() - 1 {
                    assert(nids[b] == identity@);
                    assert(nids[a] == ids[a]);
                } else {
                    assert(nids[a] == ids[a] && nids[b] == ids[b]);
                }
            }
            assert forall|a: int| 0 <= a < self.entries@.len() implies #[trigger] self.entries@[a].safe_name@
                == spec_safe_name(self.entries@[a].identity@) by {
                if a < n {
                    assert(self.entries@[a] == before.entries@[a]);
                }
            }
            assert(self@.chat_tools =~= before@.chat_tools);
        }
        Ok(name)
    }

    /// Declares a function tool, possibly inside a namespace.
    fn add_function(
        &mut self,
        tool: &FunctionTool,
        namespace: Option<&str>,
        namespace_description: Option<&str>,
    ) -> (res: Result<(), ProxyError>)
        requires
            old(self).wf(),
            old(self).tools_aligned(),
        ensures
            res is Ok ==> final(self).tools_aligned(),
            outcome_matches(
                res,
                final(self)@,
                spec_add_function(
                    old(self)@,
                    *tool,
                    opt_str_view(namespace),
                    opt_str_view(namespace_description),
                ),
            ),
            res is Ok ==> final(self).wf(),
    {
        if tool.defer_loading == Some(true) {
            let mut msg = String::from_str("deferred loading for function tool ");
            msg.append(debug_str(tool.name.as_str()).as_str());
            msg.append("; disable tool_search/deferred tools in the Codex model profile");
            return Err(ProxyError::Unsupported(msg));
        }
        let identity = ToolIdentity::function(tool.name.as_str(), namespace);
        let name = match self.register(identity) {
            Ok(name) => name,
            Err(e) => return Err(e),
        };
        let description = match namespace_description {
            Some(d) => if d.is_empty() {
                tool.description.clone()
            } else {
                concat3(d, "\n\n", tool.description.as_str())
            },
            None => tool.description.clone(),
        };
        let ghost before = *self;
        push_chat_tool(
            &mut self.chat_tools,
            ChatTool {
                name,
                description,
                parameters: ChatToolParameters::Schema(tool.parameters_json.clone()),
                strict: tool.strict,
            },
        );
        proof {
            assert(self@.identities =~= before@.identities);
            assert(self@.chat_tools =~= before@.chat_tools.push(self.chat_tools@.last()@));
            assert forall|i: int| 0 <= i < self@.identities.len() implies (
            #[trigger] self@.chat_tools[i]).name == spec_safe_name(self@.identities[i]) by {
                if i < before@.chat_tools.len() {
                    assert(self@.chat_tools[i] == before@.chat_tools[i]);
                    assert(self@.identities[i] == old(self)@.identities[i]);
                }
            }
        }
        Ok(())
    }

    /// Declares a freeform tool.
    fn add_custom(&mut self, tool: &CustomTool) -> (res: Result<(), ProxyError>)
        requires
            old(self).wf(),
            old(self).tools_aligned(),
        ensures
            res is Ok ==> final(self).tools_aligned(),
            outcome_matches(res, final(self)@, spec_add_custom(old(self)@, *tool)),
            res is Ok ==> final(self).wf(),
    {
        let identity = ToolIdentity::custom(tool.name.as_str(), None);
        let name = match self.register(identity) {
            Ok(name) => name,
            Err(e) => return Err(e),
        };
        let mut format_description = String::from_str("Freeform input format: type=");
        format_description.append(tool.format_kind.as_str());
        format_description.append(", syntax=");
        format_description.append(tool.format_syntax.as_str());
        format_description.append(".\n");
        format_description.append(tool.format_definition.as_str());
        let description = if tool.description.as_str().is_empty() {
            format_description
        } else {
            concat3(tool.description.as_str(), "\n\n", format_description.as_str())
        };
        assert(description@ == custom_description(*tool));
        if chars_of(description.as_str()).len() > MAX_CUSTOM_TOOL_DESCRIPTION_CHARS {
            let mut msg = String::from_str("custom tool ");
            msg.append(debug_str(tool.name.as_str()).as_str());
            msg.append(
                " requires a generated description longer than the 32768-character V1 limit",
            );
            return Err(ProxyError::Unsupported(msg));
        }
        let ghost before = *self;
        push_chat_tool(
            &mut self.chat_tools,
            ChatTool { name, description, parameters: ChatToolParameters::FreeformInput, strict: true },
        );
        proof {
            assert(self@.identities =~= before@.identities);
            assert(self@.chat_tools =~= before@.chat_tools.push(self.chat_tools@.last()@));
            assert forall|i: int| 0 <= i < self@.identities.len() implies (
            #[trigger] self@.chat_tools[i]).name == spec_safe_name(self@.identities[i]) by {
                if i < before@.chat_tools.len() {
                    assert(self@.chat_tools[i] == before@.chat_tools[i]);
                    assert(self@.identities[i] == old(self)@.identities[i]);
                }
            }
        }
        Ok(())
    }

    fn add_namespace_members(
        &mut self,
        namespace: &str,
        description: &str,
        members: &Vec<NamespaceMember>,
    ) -> (res: Result<(), ProxyError>)
        requires
            old(self).wf(),
            old(self).tools_aligned(),
        ensures
            res is Ok ==> final(self).tools_aligned(),
            outcome_matches(
                res,
                final(self)@,
                spec_add_namespace_members(old(self)@, namespace@, description@, members@),
            ),
            res is Ok ==> final(self).wf(),
    {
        let n = members.len();
        let mut i: usize = 0;
        assert(members@.subrange(0, n as int) =~= members@);
        while i < n
            invariant
                n == members@.len(),
                i <= n,
                self.wf(),
                self.tools_aligned(),
                spec_add_namespace_members(old(self)@, namespace@, description@, members@)
                    == spec_add_namespace_members(
                    self@,
                    namespace@,
                    description@,
                    members@.subrange(i as int, n as int),
                ),
            decreases n - i,
        {
            let ghost rest = members@.subrange(i as int, n as int);
            assert(rest[0] == members@[i as int]);
            assert(rest.drop_first() =~= members@.subrange(i + 1, n as int));
            match &members[i] {
                NamespaceMember::NonFunction => {
                    let mut msg = String::from_str("namespace ");
                    msg.append(debug_str(namespace).as_str());
                    msg.append(" contains a non-function tool");
                    return Err(ProxyError::Unsupported(msg));
                },
                NamespaceMember::Malformed(error) => {
                    let mut msg = String::from_str("invalid function in namespace ");
                    msg.append(debug_str(namespace).as_str());
                    msg.append(": ");
                    msg.append(error.as_str());
                    return Err(ProxyError::InvalidRequest(msg));
                },
                NamespaceMember::Function(tool) => {
                    match self.add_function(tool, Some(namespace), Some(description)) {
                        Ok(()) => {},
                        Err(e) => return Err(e),
                    }
                },
            }
            i += 1;
        }
        Ok(())
    }

    /// Declares one entry of the `tools` array.
    fn add_tool(&mut self, tool: &ToolDefinition) -> (res: Result<(), ProxyError>)
        requires
            old(self).wf(),
            old(self).tools_aligned(),
        ensures
            res is Ok ==> final(self).tools_aligned(),
            outcome_matches(res, final(self)@, spec_add_tool(old(self)@, *tool)),
            res is Ok ==> final(self).wf(),
    {
        match tool {
            ToolDefinition::MissingType => Err(
                ProxyError::InvalidRequest(
                    String::from_str("tool is missing a string type discriminator"),
                ),
            ),
            ToolDefinition::Function(f) => self.add_function(f, None, None),
            ToolDefinition::Namespace { name, description, tools } => self.add_namespace_members(
                name.as_str(),
                description.as_str(),
                tools,
            ),
            ToolDefinition::Custom(c) => self.add_custom(c),
            ToolDefinition::Malformed { kind, error } => {
                let prefix = match kind {
                    ToolDeclarationKind::Function => "invalid function tool: ",
                    ToolDeclarationKind::Namespace => "invalid namespace tool: ",
                    ToolDeclarationKind::Custom => "invalid custom tool: ",
                };
                Err(ProxyError::InvalidRequest(concat2(prefix, error.as_str())))
            },
            ToolDefinition::Unsupported { kind } => {
                let mut msg = String::from_str("tool type ");
                msg.append(debug_str(kind.as_str()).as_str());
                msg.append(" cannot be represented by Chat Completions");
                Err(ProxyError::Unsupported(msg))
            },
        }
    }

    /// Builds the registry of a request's `tools` array.
    pub fn from_responses_tools(tools: &Option<Vec<ToolDefinition>>) -> (res: Result<
        ToolRegistry,
        ProxyError,
    >)
        ensures
            match spec_from_responses_tools(*tools) {
                Ok(r) => res matches Ok(reg) && reg@ == r && reg.wf() && reg.tools_aligned(),
                Err(e) => res matches Err(err) && err@ == e,
            },
    {
        let mut registry = ToolRegistry::new();
        match tools {
            None => Ok(registry),
            Some(list) => {
                let n = list.len();
                let mut i: usize = 0;
                assert(list@.subrange(0, n as int) =~= list@);
                while i < n
                    invariant
                        n == list@.len(),
                        i <= n,
                        registry.wf(),
                        registry.tools_aligned(),
                        spec_from_responses_tools(*tools) == spec_add_tools(empty_registry(), list@),
                        spec_add_tools(empty_registry(), list@) == spec_add_tools(
                            registry@,
                            list@.subrange(i as int, n as int),
                        ),
                    decreases n - i,
                {
                    let ghost rest = list@.subrange(i as int, n as int);
                    assert(rest[0] == list@[i as int]);
                    assert(rest.drop_first() =~= list@.subrange(i + 1, n as int));
                    let ghost before = registry@;
                    match registry.add_tool(&list[i]) {
                        Ok(()) => {},
                        Err(e) => {
                            assert(spec_add_tools(before, rest) == Err::<RegistryV, ProxyErrorV>(
                                e@,
                            ));
                            return Err(e);
                        },
                    }
                    i += 1;
                }
                Ok(registry)
            },
        }
    }

    /// The Chat tools of the request, or `None` when it declares none.
    pub fn chat_tools(&self) -> (res: Option<Vec<ChatTool>>)
        ensures
            self@.chat_tools.len() == 0 ==> res is None,
            self@.chat_tools.len() > 0 ==> (res matches Some(v) && v@.map_values(
                |t: ChatTool| t@,
            ) == self@.chat_tools),
    {
        let n = self.chat_tools.len();
        if n == 0 {
            return None;
        }
        let mut out: Vec<ChatTool> = Vec::new();
        let mut i: usize = 0;
        while i < n
            invariant
                n == self.chat_tools@.len(),
                i <= n,
                out@.len() == i,
                forall|j: int| 0 <= j < i ==> (#[trigger] out@[j])@ == self.chat_tools@[j]@,
            decreases n - i,
        {
            let t = &self.chat_tools[i];
            let params = match &t.parameters {
                ChatToolParameters::Schema(s) => ChatToolParameters::Schema(s.clone()),
                ChatToolParameters::FreeformInput => ChatToolParameters::FreeformInput,
            };
            out.push(
                ChatTool {
                    name: t.name.clone(),
                    description: t.description.clone(),
                    parameters: params,
                    strict: t.strict,
                },
            );
            assert(out@[i as int]@ == self.chat_tools@[i as int]@);
            i += 1;
        }
        assert(out@.map_values(|t: ChatTool| t@) =~= self.chat_tools@.map_values(|t: ChatTool| t@));
        Some(out)
    }

    /// The Chat name under which `identity` is called.
    pub fn safe_name_of(&self, identity: &ToolIdentity) -> (res: String)
        requires
            self.wf(),
        ensures
            res@ == spec_safe_name(identity@),
    {
        let n = self.entries.len();
        let mut i: usize = 0;
        while i < n
            invariant
                n == self.entries@.len(),
                self.wf(),
                i <= n,
            decreases n - i,
        {
            if identity_eq(&self.entries[i].identity, identity) {
                return self.entries[i].safe_name.clone();
            }
            i += 1;
        }
        safe_name(identity)
    }

    /// The declared tool that Chat calls by `name`.
    pub fn lookup(&self, name: &str) -> (res: Option<ToolIdentity>)
        requires
            self.wf(),
        ensures
            match find_by_safe_name(self@.identities, name@) {
                Some(id) => res matches Some(r) && r@ == id,
                None => res is None,
            },
    {
        let ghost ids = self@.identities;
        let n = self.entries.len();
        let mut i: usize = 0;
        while i < n
            invariant
                n == self.entries@.len(),
                ids == self@.identities,
                self.wf(),
                i <= n,
                forall|j: int| 0 <= j < i ==> spec_safe_name(#[trigger] ids[j]) != name@,
            decreases n - i,
        {
            assert(ids[i as int] == self.entries@[i as int].identity@);
            if str_is(self.entries[i].safe_name.as_str(), name) {
                proof {
                    lemma_find_found(ids, name@, i as int);
                }
                return Some(self.entries[i].identity.clone_identity());
            }
            i += 1;
        }
        proof {
            lemma_find_none(ids, name@);
        }
        None
    }
}


pub open spec fn spec_response_item(
    r: RegistryV,
    item_id: Seq<char>,
    call_id: Seq<char>,
    safe_name: Seq<char>,
    arguments: Seq<char>,
) -> Result<OutputToolCallV, ProxyErrorV> {
    match find_by_safe_name(r.identities, safe_name) {
        None => Err(
            ProxyErrorV::InvalidUpstream(
                "model called undeclared Chat function "@ + str_debug(safe_name),
            ),
        ),
        Some(id) => match id.kind {
            ToolKind::Function => Ok(
                OutputToolCallV {
                    id: item_id,
                    call_id: call_id,
                    name: id.name,
                    namespace: id.namespace,
                    payload: ToolCallPayloadV::Arguments(arguments),
                },
            ),
            ToolKind::Custom => spec_custom_call_item(
                item_id,
                call_id,
                id.name,
                id.namespace,
                json_string_field(arguments, "input"@),
            ),
        },
    }
}

/// The Responses form of a call of custom tool `name`, given what its Chat
/// arguments hold under `input`: the freeform input when that is a string.
pub open spec fn spec_custom_call_item(
    item_id: Seq<char>,
    call_id: Seq<char>,
    name: Seq<char>,
    namespace: Option<Seq<char>>,
    input: JsonStringFieldV,
) -> Result<OutputToolCallV, ProxyErrorV> {
    match input {
        JsonStringFieldV::InvalidJson(e) => Err(
            ProxyErrorV::InvalidUpstream(
                "custom tool "@ + str_debug(name) + " returned invalid JSON arguments: "@ + e,
            ),
        ),
        JsonStringFieldV::NotAString => Err(
            ProxyErrorV::InvalidUpstream(
                "custom tool "@ + str_debug(name) + " arguments must contain a string field named input"@,
            ),
        ),
        JsonStringFieldV::Found(text) => Ok(
            OutputToolCallV {
                id: item_id,
                call_id: call_id,
                name: name,
                namespace: namespace,
                payload: ToolCallPayloadV::Input(text),
            },
        ),
    }
}

/// Builds the `custom_tool_call` item of a call of custom tool `name` from
/// what its Chat arguments hold under `input`.
pub fn custom_call_item(
    item_id: String,
    call_id: String,
    name: String,
    namespace: Option<String>,
    input: JsonStringField,
) -> (res: Result<OutputToolCall, ProxyError>)
    ensures
        match spec_custom_call_item(item_id@, call_id@, name@, opt_string_view(namespace), input@) {
            Ok(v) => res matches Ok(item) && item@ == v,
            Err(e) => res matches Err(err) && err@ == e,
        },
{
    match input {
        JsonStringField::InvalidJson(e) => {
            let mut msg = String::from_str("custom tool ");
            msg.append(debug_str(name.as_str()).as_str());
            msg.append(" returned invalid JSON arguments: ");
            msg.append(e.as_str());
            Err(ProxyError::InvalidUpstream(msg))
        },
        JsonStringField::NotAString => {
            let mut msg = String::from_str("custom tool ");
            msg.append(debug_str(name.as_str()).as_str());
            msg.append(" arguments must contain a string field named input");
            Err(ProxyError::InvalidUpstream(msg))
        },
        JsonStringField::Found(text) => Ok(
            OutputToolCall { id: item_id, call_id, name, namespace, payload: ToolCallPayload::Input(text) },
        ),
    }
}

impl ToolRegistry {
    /// Restores the Responses form of a Chat function call made under `safe_name`.
    pub fn response_item(
        &self,
        item_id: String,
        call_id: String,
        safe_name: &str,
        arguments: String,
    ) -> (res: Result<OutputToolCall, ProxyError>)
        requires
            self.wf(),
        ensures
            match spec_response_item(self@, item_id@, call_id@, safe_name@, arguments@) {
                Ok(v) => res matches Ok(item) && item@ == v,
                Err(e) => res matches Err(err) && err@ == e,
            },
    {
        let identity = match self.lookup(safe_name) {
            Some(identity) => identity,
            None => {
                let msg = concat2(
                    "model called undeclared Chat function ",
                    debug_str(safe_name).as_str(),
                );
                return Err(ProxyError::InvalidUpstream(msg));
            },
        };
        match identity.kind {
            ToolKind::Function => Ok(
                OutputToolCall {
                    id: item_id,
                    call_id,
                    name: identity.name,
                    namespace: identity.namespace,
                    payload: ToolCallPayload::Arguments(arguments),
                },
            ),
            ToolKind::Custom => custom_call_item(
                item_id,
                call_id,
                identity.name,
                identity.namespace,
                lookup_json_string_field(arguments.as_str(), "input"),
            ),
        }
    }
}

/// Chat names are reversible: a call made under the Chat name of any declared
/// tool is attributed back to exactly that tool.
pub proof fn lemma_safe_name_round_trip(registry: &ToolRegistry, identity: ToolIdentityV)
    requires
        registry.wf(),
        registry@.identities.contains(identity),
    ensures
        find_by_safe_name(registry@.identities, spec_safe_name(identity)) == Some(identity),
{
    let ids = registry@.identities;
    let k = choose|k: int| 0 <= k < ids.len() && ids[k] == identity;
    assert forall|j: int| 0 <= j < k implies spec_safe_name(#[trigger] ids[j]) != spec_safe_name(
        identity,
    ) by {
        assert(j < k);
    }
    lemma_find_found(ids, spec_safe_name(identity), k);
}

/// A call made under the Chat name of a declared tool comes back as that
/// tool's call: a function's with the arguments as sent, a custom tool's with
/// the `input` its arguments hold; a name that no declared tool has is refused.
pub proof fn lemma_response_item_declared(
    registry: &ToolRegistry,
    identity: ToolIdentityV,
    item_id: Seq<char>,
    call_id: Seq<char>,
    arguments: Seq<char>,
    other_name: Seq<char>,
)
    requires
        registry.wf(),
        registry@.identities.contains(identity),
    ensures
        identity.kind == ToolKind::Function ==> spec_response_item(
            registry@,
            item_id,
            call_id,
            spec_safe_name(identity),
            arguments,
        ) == Ok::<OutputToolCallV, ProxyErrorV>(
            OutputToolCallV {
                id: item_id,
                call_id,
                name: identity.name,
                namespace: identity.namespace,
                payload: ToolCallPayloadV::Arguments(arguments),
            },
        ),
        identity.kind == ToolKind::Custom ==> spec_response_item(
            registry@,
            item_id,
            call_id,
            spec_safe_name(identity),
            arguments,
        ) == spec_custom_call_item(
            item_id,
            call_id,
            identity.name,
            identity.namespace,
            json_string_field(arguments, "input"@),
        ),
        (forall|k: int|
            0 <= k < registry@.identities.len() ==> spec_safe_name(#[trigger] registry@.identities[k])
                != other_name) ==> spec_response_item(registry@, item_id, call_id, other_name, arguments)
            == Err::<OutputToolCallV, ProxyErrorV>(
            ProxyErrorV::InvalidUpstream("model called undeclared Chat function "@ + str_debug(other_name)),
        ),
{
    lemma_safe_name_round_trip(registry, identity);
    if forall|k: int|
        0 <= k < registry@.identities.len() ==> spec_safe_name(#[trigger] registry@.identities[k])
            != other_name {
        lemma_find_none(registry@.identities, other_name);
    }
}

/// The Chat tools sent upstream have pairwise distinct names, one per declared tool.
pub proof fn lemma_chat_tool_names_distinct(registry: &ToolRegistry)
    requires
        registry.wf(),
        registry.tools_aligned(),
    ensures
        registry@.chat_tools.len() == registry@.identities.len(),
        forall|i: int, j: int|
            0 <= i < j < registry@.chat_tools.len() ==> registry@.chat_tools[i].name
                != registry@.chat_tools[j].name,
{
    let r = registry@;
    assert forall|i: int, j: int| 0 <= i < j < r.chat_tools.len() implies r.chat_tools[i].name
        != r.chat_tools[j].name by {
        assert(r.chat_tools[i].name == spec_safe_name(r.identities[i]));
        assert(r.chat_tools[j].name == spec_safe_name(r.identities[j]));
    }
}

}
