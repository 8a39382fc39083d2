//! Resources from a file: provider settings, and the secrets such a file may refer to.

use crate::compile::{
    answered, answered_at, compilation, compile_resources, compiled, reply_of, Progress, Reply,
    RequestView,
};
use crate::config::{ResourceDocument, SecretResolver, SecretSource, SecretSourceView};
use crate::document_laws::document_stands;
use crate::duration::Duration;
use crate::error::ConfigError;
use crate::key::SecretString;
use crate::registry::ProviderSnapshot;
use crate::text::{
    chars_of, join2, join3, same_text, trim_end, trimmed_end, trimming_is_exact,
};
use vstd::prelude::*;

verus! {

/// Where the resource file is looked for unless configured otherwise.
pub const DEFAULT_PATH: &'static str = "/etc/oauthmux/config.yaml";

/// Seconds between two readings of the file unless configured otherwise.
pub const DEFAULT_POLL_SECONDS: u64 = 30;

/// The settings of a provider that reads resources from one file.
#[derive(Debug)]
pub struct FileProvider {
    path: String,
    poll_interval: Duration,
}

impl FileProvider {
    #[verifier::type_invariant]
    closed spec fn well_formed(self) -> bool {
        self.poll_interval@ > 0
    }

    /// The path of the resource file.
    pub closed spec fn path_text(self) -> Seq<char> {
        self.path@
    }

    /// The time between two readings, in nanoseconds.
    pub closed spec fn interval(self) -> nat {
        self.poll_interval@
    }

    /// A provider for the file at `path`, which is read once per `poll_interval`.
    pub fn new(path: &str, poll_interval: Duration) -> (provider: Result<FileProvider, ConfigError>)
        ensures
            match provider {
                Ok(provider) => {
                    &&& poll_interval@ > 0
                    &&& provider.path_text() == path@
                    &&& provider.interval() == poll_interval@
                },
                Err(error) => {
                    &&& poll_interval@ == 0
                    &&& error@ == seq!["file provider poll interval must be greater than zero"@]
                },
            },
    {
        if poll_interval.is_zero() {
            return Err(
                ConfigError::msg(
                    "file provider poll interval must be greater than zero".to_owned(),
                ),
            );
        }
        Ok(FileProvider { path: path.to_owned(), poll_interval })
    }

    pub fn path(&self) -> (path: &str)
        ensures
            path@ == self.path_text(),
    {
        self.path.as_str()
    }

    /// The time between two readings, which is never zero.
    pub fn poll_interval(&self) -> (interval: Duration)
        ensures
            interval@ == self.interval(),
            interval@ > 0,
    {
        proof {
            use_type_invariant(self);
        }
        self.poll_interval
    }

    /// The name of the provider.
    pub fn name(&self) -> (name: &'static str)
        ensures
            name@ == "file"@,
    {
        "file"
    }
}

impl Default for FileProvider {
    fn default() -> (provider: FileProvider)
        ensures
            provider.path_text() == DEFAULT_PATH@,
            provider.interval() == DEFAULT_POLL_SECONDS as nat * 1_000_000_000,
    {
        FileProvider {
            path: DEFAULT_PATH.to_owned(),
            poll_interval: Duration::from_secs(DEFAULT_POLL_SECONDS),
        }
    }
}

// ---------------------------------------------------------------------------------------------
// Secrets
// ---------------------------------------------------------------------------------------------

/// The longest prefix of `text` that ends in a slash.
pub open spec fn up_to_last_slash(text: Seq<char>) -> Seq<char>
    decreases text.len(),
{
    if text.len() == 0 || text.last() == '/' {
        text
    } else {
        up_to_last_slash(text.drop_last())
    }
}

/// The last of the segments of `text`, which slashes separate.
pub open spec fn last_segment(text: Seq<char>) -> Seq<char> {
    text.skip(up_to_last_slash(text).len() as int)
}

/// `text` without its last segment and the slash in front of that.
pub open spec fn without_last_segment(text: Seq<char>) -> Seq<char> {
    let start = up_to_last_slash(text);
    if start.len() == 0 {
        start
    } else {
        start.drop_last()
    }
}

/// Whether a segment leads nowhere: it is empty, or a single dot.
pub open spec fn idle_segment(segment: Seq<char>) -> bool {
    segment.len() == 0 || segment == "."@
}

/// The last slash splits a text in two: what goes up to it is a prefix that ends in a slash, unless
/// it is empty, and the segment behind it has none.
pub proof fn last_slash_splits(text: Seq<char>)
    ensures
        up_to_last_slash(text).is_prefix_of(text),
        up_to_last_slash(text).len() > 0 ==> up_to_last_slash(text).last() == '/',
        !last_segment(text).contains('/'),
    decreases text.len(),
{
    if text.len() > 0 && text.last() != '/' {
        let shorter = text.drop_last();
        last_slash_splits(shorter);
        let segment = last_segment(text);
        assert forall|i: int| 0 <= i < segment.len() implies segment[i] != '/' by {
            if i < segment.len() - 1 {
                assert(last_segment(shorter)[i] == segment[i]);
            }
        }
    }
}

/// `text` without the segments at its end that lead nowhere.
pub open spec fn settled(text: Seq<char>) -> Seq<char>
    decreases text.len(),
{
    if text.len() > 0 && idle_segment(last_segment(text)) {
        proof {
            last_slash_splits(text);
        }
        settled(without_last_segment(text))
    } else {
        text
    }
}

/// The length of what stands before the segments of a path: the slash of an absolute path, or a
/// single dot as its first segment.
pub open spec fn lead(path: Seq<char>) -> int {
    if path.len() > 0 && (path[0] == '/' || (path[0] == '.' && (path.len() == 1 || path[1] == '/')))
    {
        1
    } else {
        0
    }
}

/// The directory of the file at `path`: the path without its last segment, and without segments
/// around that which lead nowhere. Paths are separated by slashes, on every machine. A path of one
/// segment has an empty directory; one that names no file has none, and the current directory
/// stands for it.
pub open spec fn directory_of(path: Seq<char>) -> Seq<char> {
    let segments = settled(path.skip(lead(path)));
    if segments.len() > 0 {
        path.take(lead(path)) + settled(without_last_segment(segments))
    } else if path.len() > 0 && path[0] == '.' {
        Seq::empty()
    } else {
        "."@
    }
}

/// The path of a secret: an absolute one, which starts with a slash, as it is, a relative one from
/// `base` on.
pub open spec fn secret_path(base: Seq<char>, path: Seq<char>) -> Seq<char> {
    if path.len() > 0 && path[0] == '/' {
        path
    } else if base.len() == 0 || base.last() == '/' {
        base + path
    } else {
        base + "/"@ + path
    }
}

fn through_last_slash<'a>(text: &'a str) -> (start: &'a str)
    ensures
        start@ == up_to_last_slash(text@),
{
    let chars: Vec<char> = chars_of(text);
    let mut kept: usize = chars.len();
    assert(text@.take(kept as int) =~= text@);
    while kept > 0 && chars[kept - 1] != '/'
        invariant
            chars@ == text@,
            kept <= chars.len(),
            up_to_last_slash(text@) == up_to_last_slash(text@.take(kept as int)),
        decreases kept,
    {
        assert(text@.take(kept as int).drop_last() =~= text@.take(kept - 1));
        kept = kept - 1;
    }
    assert(text@.subrange(0, kept as int) =~= text@.take(kept as int));
    text.substring_char(0, kept)
}

fn cut_last_segment<'a>(text: &'a str) -> (rest: &'a str)
    ensures
        rest@ == without_last_segment(text@),
{
    let start: &str = through_last_slash(text);
    let length: usize = start.unicode_len();
    if length == 0 {
        start
    } else {
        assert(start@.subrange(0, length - 1) =~= start@.drop_last());
        start.substring_char(0, length - 1)
    }
}

fn is_idle(text: &str) -> (idle: bool)
    ensures
        idle == idle_segment(last_segment(text@)),
{
    proof {
        last_slash_splits(text@);
    }
    let length: usize = text.unicode_len();
    let start: usize = through_last_slash(text).unicode_len();
    let segment: &str = text.substring_char(start, length);
    assert(segment@ =~= last_segment(text@));
    segment.is_empty() || same_text(segment, ".")
}

fn settle<'a>(text: &'a str) -> (rest: &'a str)
    ensures
        rest@ == settled(text@),
{
    let mut rest: &'a str = text;
    while !rest.is_empty() && is_idle(rest)
        invariant
            settled(text@) == settled(rest@),
        decreases rest@.len(),
    {
        proof {
            last_slash_splits(rest@);
        }
        rest = cut_last_segment(rest);
    }
    rest
}

/// The directory of the resource file at `path`, from which relative secret paths start. Paths are
/// separated by slashes.
pub fn resource_directory(path: &str) -> (base: String)
    ensures
        base@ == directory_of(path@),
{
    let chars: Vec<char> = chars_of(path);
    let lead: usize = if chars.len() > 0 && (chars[0] == '/' || (chars[0] == '.' && (chars.len()
        == 1 || chars[1] == '/'))) {
        1
    } else {
        0
    };
    let length: usize = path.unicode_len();
    assert(path@.subrange(lead as int, length as int) =~= path@.skip(lead as int));
    assert(path@.subrange(0, lead as int) =~= path@.take(lead as int));
    let segments: &str = settle(path.substring_char(lead, length));
    if !segments.is_empty() {
        join2(path.substring_char(0, lead), settle(cut_last_segment(segments)))
    } else if chars.len() > 0 && chars[0] == '.' {
        proof {
            reveal_strlit("");
            assert(""@ =~= Seq::<char>::empty());
        }
        "".to_owned()
    } else {
        ".".to_owned()
    }
}

fn join_path(base: &str, path: &str) -> (joined: String)
    ensures
        joined@ == secret_path(base@, path@),
{
    let path_chars: Vec<char> = chars_of(path);
    if path_chars.len() > 0 && path_chars[0] == '/' {
        return path.to_owned();
    }
    let base_chars: Vec<char> = chars_of(base);
    if base_chars.len() == 0 || base_chars[base_chars.len() - 1] == '/' {
        join2(base, path)
    } else {
        join3(base, "/", path)
    }
}

/// Where a secret is looked up on the local machine.
#[derive(Debug)]
pub enum SecretLookup {
    /// In the environment variable of this name.
    Environment(String),
    /// In the file at this path.
    File(String),
}

/// The mathematical content of a [`SecretLookup`].
pub enum LookupView {
    Environment(Seq<char>),
    File(Seq<char>),
}

impl View for SecretLookup {
    type V = LookupView;

    open spec fn view(&self) -> LookupView {
        match *self {
            SecretLookup::Environment(name) => LookupView::Environment(name@),
            SecretLookup::File(path) => LookupView::File(path@),
        }
    }
}

/// Where a source leads on the local machine, or why it does not. Relative paths start from `base`.
pub open spec fn lookup_of(base: Seq<char>, source: SecretSourceView) -> Result<
    LookupView,
    Seq<Seq<char>>,
> {
    match source {
        SecretSourceView::Env { name } => Ok(LookupView::Environment(name)),
        SecretSourceView::File { path } => Ok(LookupView::File(secret_path(base, path))),
        SecretSourceView::SsmParameter { .. } => Err(
            seq!["AWS secret sources are not supported by the File provider"@],
        ),
        SecretSourceView::SecretsManager { .. } => Err(
            seq!["AWS secret sources are not supported by the File provider"@],
        ),
    }
}

/// Where to look up the secret that is kept at `source`; relative paths start from `base`.
pub fn secret_lookup(base: &str, source: &SecretSource) -> (lookup: Result<SecretLookup, ConfigError>)
    ensures
        match lookup {
            Ok(lookup) => lookup_of(base@, source@) == Ok::<LookupView, Seq<Seq<char>>>(lookup@),
            Err(error) => lookup_of(base@, source@) == Err::<LookupView, Seq<Seq<char>>>(error@),
        },
{
    match source {
        SecretSource::Env { name } => Ok(SecretLookup::Environment(name.clone())),
        SecretSource::File { path } => Ok(SecretLookup::File(join_path(base, path.as_str()))),
        SecretSource::SsmParameter { .. } => Err(unsupported_source()),
        SecretSource::SecretsManager { .. } => Err(unsupported_source()),
    }
}

fn unsupported_source() -> (error: ConfigError)
    ensures
        error@ == seq!["AWS secret sources are not supported by the File provider"@],
{
    ConfigError::msg("AWS secret sources are not supported by the File provider".to_owned())
}

/// The content of a text that was looked up, or of the error.
pub open spec fn found_text(found: Result<String, ConfigError>) -> Reply {
    match found {
        Ok(text) => Ok(text@),
        Err(error) => Err(error@),
    }
}

/// The secret in a text that was looked up: line ends at its end do not belong to it.
pub open spec fn secret_of(found: Reply) -> Reply {
    match found {
        Ok(text) => Ok(trimmed_end(text, '\r', '\n')),
        Err(error) => Err(error),
    }
}

/// Takes the secret from a text that was looked up.
pub fn secret_from(found: Result<String, ConfigError>) -> (secret: Result<SecretString, ConfigError>)
    ensures
        reply_of(secret) == secret_of(found_text(found)),
        match found {
            Ok(text) => secret matches Ok(secret) && without_line_ends(text@, secret@),
            Err(error) => secret matches Err(same) && same@ == error@,
        },
{
    proof {
        if found is Ok {
            looked_up_secrets_are_whole(found->Ok_0@, Seq::empty());
        }
    }
    match found {
        Ok(text) => Ok(SecretString::new(trim_end(text.as_str(), '\r', '\n'))),
        Err(error) => Err(error),
    }
}

/// What reads environment variables and files. A path is taken as it is.
pub trait LocalSecrets {
    fn environment(&self, name: &str) -> Result<String, ConfigError>;

    fn file(&self, path: &str) -> Result<String, ConfigError>;
}

/// Whether `found` is what looking up may come back with.
pub open spec fn looks_up<S: LocalSecrets>(secrets: &S, lookup: LookupView, found: Reply) -> bool {
    match lookup {
        LookupView::Environment(name) => exists|text: &str, answer: Result<String, ConfigError>|
            text@ == name && #[trigger] call_ensures(S::environment, (secrets, text), answer)
                && found_text(answer) == found,
        LookupView::File(path) => exists|text: &str, answer: Result<String, ConfigError>|
            text@ == path && #[trigger] call_ensures(S::file, (secrets, text), answer)
                && found_text(answer) == found,
    }
}

/// Finds secrets in the documents themselves, in the environment and in files.
pub struct FileSecretResolver<'a, S: LocalSecrets> {
    /// The directory from which relative paths start.
    pub base: &'a str,
    pub secrets: &'a S,
}

impl<S: LocalSecrets> SecretResolver for FileSecretResolver<'_, S> {
    /// A value given in place is the secret, to the last character.
    fn resolve_value(&self, value: &str) -> (secret: Result<SecretString, ConfigError>)
        ensures
            reply_of(secret) == Ok::<Seq<char>, Seq<Seq<char>>>(value@),
    {
        Ok(SecretString::new(value))
    }

    /// Looks the secret up where `source` leads, and nowhere else.
    fn resolve_source(&self, source: &SecretSource) -> (secret: Result<SecretString, ConfigError>)
        ensures
            match lookup_of(self.base@, source@) {
                Err(error) => reply_of(secret) == Err::<Seq<char>, Seq<Seq<char>>>(error),
                Ok(lookup) => exists|found: Reply| #[trigger]
                    looks_up(self.secrets, lookup, found) && reply_of(secret) == secret_of(found),
            },
    {
        match secret_lookup(self.base, source) {
            Err(error) => Err(error),
            Ok(lookup) => {
                let found: Result<String, ConfigError> = match &lookup {
                    SecretLookup::Environment(name) => self.secrets.environment(name.as_str()),
                    SecretLookup::File(path) => self.secrets.file(path.as_str()),
                };
                assert(looks_up(self.secrets, lookup@, found_text(found)));
                secret_from(found)
            },
        }
    }
}

/// Whether `reply` is what a resource file's secrets give for `request`: values as they are, AWS
/// sources refused, everything else what the local machine holds, without line ends at its end.
/// Relative paths start from `base`.
pub open spec fn gives<S: LocalSecrets>(
    base: Seq<char>,
    secrets: &S,
    request: RequestView,
    reply: Reply,
) -> bool {
    match request {
        RequestView::Value(value) => reply == Ok::<Seq<char>, Seq<Seq<char>>>(value),
        RequestView::Source(source) => match lookup_of(base, source) {
            Err(error) => reply == Err::<Seq<char>, Seq<Seq<char>>>(error),
            Ok(lookup) => exists|found: Reply| #[trigger]
                looks_up(secrets, lookup, found) && reply == secret_of(found),
        },
    }
}

/// Whether reply `i` is what the local secrets give for the request that the compilation makes
/// after the replies before it.
pub open spec fn given_at<S: LocalSecrets>(
    documents: Seq<ResourceDocument>,
    base: Seq<char>,
    secrets: &S,
    replies: Seq<Reply>,
    i: int,
) -> bool {
    compilation(documents, replies.take(i)) matches Progress::Ask(request) && gives(
        base,
        secrets,
        request,
        replies[i],
    )
}

impl FileProvider {
    /// Compiles the documents of the resource file. Every secret they need is asked for as
    /// [`compilation`] asks, and answered from the documents, the environment and files; relative
    /// paths start from the directory of the resource file.
    pub fn load<S: LocalSecrets>(
        &self,
        documents: Vec<ResourceDocument>,
        secrets: &S,
    ) -> (snapshot: Result<ProviderSnapshot, ConfigError>)
        ensures
            exists|replies: Seq<Reply>|
                #![trigger compilation(documents@, replies)]
                (forall|i: int|
                    0 <= i < replies.len() ==> #[trigger] given_at(
                        documents@,
                        directory_of(self.path_text()),
                        secrets,
                        replies,
                        i,
                    )) && compilation(documents@, replies) == Progress::Done(compiled(snapshot)),
            snapshot matches Ok(snapshot) ==> forall|i: int|
                0 <= i < documents@.len() ==> document_stands(snapshot@, #[trigger] documents@[i]),
    {
        let ghost all = documents@;
        let base: String = resource_directory(self.path.as_str());
        let resolver = FileSecretResolver { base: base.as_str(), secrets };
        let snapshot = compile_resources(documents, &resolver);
        proof {
            let replies = choose|replies: Seq<Reply>| #[trigger]
                answered(all, &resolver, replies) && compilation(all, replies) == Progress::Done(
                    compiled(snapshot),
                );
            assert forall|i: int| 0 <= i < replies.len() implies #[trigger] given_at(
                all,
                directory_of(self.path_text()),
                secrets,
                replies,
                i,
            ) by {
                assert(answered_at(all, &resolver, replies, i));
            }
        }
        snapshot
    }
}

proof fn lemma_last_slash(start: Seq<char>, name: Seq<char>)
    requires
        start.len() > 0,
        start.last() == '/',
        !name.contains('/'),
    ensures
        up_to_last_slash(start + name) == start,
    decreases name.len(),
{
    if name.len() == 0 {
        assert(start + name =~= start);
    } else {
        let shorter = name.drop_last();
        assert(name[name.len() - 1] != '/');
        assert((start + name).last() == name.last());
        assert((start + name).drop_last() =~= start + shorter);
        assert forall|i: int| 0 <= i < shorter.len() implies shorter[i] != '/' by {
            assert(name[i] != '/');
        }
        lemma_last_slash(start, shorter);
    }
}

/// A text without a slash is one segment.
proof fn lemma_no_slash(text: Seq<char>)
    requires
        !text.contains('/'),
    ensures
        up_to_last_slash(text).len() == 0,
{
    last_slash_splits(text);
    let start = up_to_last_slash(text);
    if start.len() > 0 {
        assert(text[start.len() - 1] == '/');
    }
}

/// What stands before the segments of a path is no part of its last segment, unless it is all.
proof fn lemma_lead(directory: Seq<char>)
    requires
        directory.len() > 0,
        !idle_segment(last_segment(directory)),
    ensures
        last_segment(directory.skip(lead(directory))) == last_segment(directory),
{
    let start = up_to_last_slash(directory);
    let segment = last_segment(directory);
    last_slash_splits(directory);
    assert(directory.skip(0) =~= directory);
    if lead(directory) == 1 {
        let rest = directory.skip(1);
        assert(directory =~= start + segment);
        if start.len() == 0 {
            reveal_strlit(".");
            assert(segment =~= directory);
            if directory[0] == '/' {
                assert(segment[0] == '/');
            } else if directory.len() > 1 {
                assert(segment[1] == '/');
            } else {
                assert(segment =~= "."@);
            }
        } else if start.len() == 1 {
            assert(rest =~= segment);
            lemma_no_slash(segment);
            assert(rest.skip(0) =~= rest);
        } else {
            assert(rest =~= start.skip(1) + segment);
            lemma_last_slash(start.skip(1), segment);
            assert(rest.skip(start.len() - 1) =~= segment);
        }
    }
}

/// A secret of a resource file is looked for where its path leads from the directory of the file:
/// `directory/name` refers by a relative path to `directory/path`, by an absolute one to the path
/// itself. The directory does not end in a segment that leads nowhere, but may be the current one.
pub proof fn relative_secrets_lie_beside_the_resource_file(
    directory: Seq<char>,
    name: Seq<char>,
    path: Seq<char>,
)
    requires
        directory == "."@ || !idle_segment(last_segment(directory)),
        !idle_segment(name),
        !name.contains('/'),
    ensures
        directory_of(directory + "/"@ + name) == directory,
        secret_path(directory_of(directory + "/"@ + name), path) == if path.len() > 0 && path[0]
            == '/' {
            path
        } else {
            directory + "/"@ + path
        },
{
    reveal_strlit("/");
    reveal_strlit(".");
    let file = directory + "/"@ + name;
    let n = lead(file);
    let inner = directory.skip(n);
    last_slash_splits(directory);
    assert(directory.len() > 0) by {
        if directory.len() == 0 {
            assert(last_segment(directory) =~= Seq::<char>::empty());
        }
    }
    assert(lead(directory) == n);
    assert(file.take(n) =~= directory.take(n));
    let body = file.skip(n);
    let start = inner + "/"@;
    assert(body =~= start + name);
    lemma_last_slash(start, name);
    assert(last_segment(body) =~= name);
    assert(settled(body) == body);
    assert(start.drop_last() =~= inner);
    assert(without_last_segment(body) == inner);
    if directory == "."@ {
        assert(inner =~= Seq::<char>::empty());
    } else {
        lemma_lead(directory);
        let segment = last_segment(directory);
        assert(directory.last() == segment.last());
        assert(segment[segment.len() - 1] != '/');
    }
    assert(settled(inner) == inner);
    assert(directory.take(n) + inner =~= directory);
    assert(directory.last() != '/');
}

/// A secret that was looked up never ends in a line end, and one that has none at its end is taken
/// as it is.
pub proof fn looked_up_secrets_have_no_line_end(text: Seq<char>)
    ensures
        secret_of(Ok(text)) matches Ok(secret) && (secret.len() > 0 ==> secret.last() != '\r'
            && secret.last() != '\n'),
        text.len() > 0 && text.last() != '\r' && text.last() != '\n' ==> secret_of(Ok(text)) == Ok::<
            Seq<char>,
            Seq<Seq<char>>,
        >(text),
{
    trimming_is_exact(text, '\r', '\n');
}

/// Whether `secret` is `text` without the carriage returns and line feeds at its end.
pub open spec fn without_line_ends(text: Seq<char>, secret: Seq<char>) -> bool {
    &&& secret.len() <= text.len()
    &&& forall|i: int| 0 <= i < secret.len() ==> #[trigger] secret[i] == text[i]
    &&& forall|i: int|
        secret.len() <= i < text.len() ==> #[trigger] text[i] as int == 0x0d || text[i] as int
            == 0x0a
    &&& secret.len() > 0 ==> text[secret.len() - 1] as int != 0x0d && text[secret.len() - 1] as int
        != 0x0a
}

/// A secret that was looked up is the text without the line ends at its end, and nothing else is
/// taken off. A failure to look it up stays what it is.
pub proof fn looked_up_secrets_are_whole(text: Seq<char>, error: Seq<Seq<char>>)
    ensures
        secret_of(Ok(text)) matches Ok(secret) && without_line_ends(text, secret),
        secret_of(Err(error)) == Err::<Seq<char>, Seq<Seq<char>>>(error),
{
    trimming_is_exact(text, '\r', '\n');
    let secret = trimmed_end(text, '\r', '\n');
    assert forall|i: int| 0 <= i < secret.len() implies #[trigger] secret[i] == text[i] by {}
    assert forall|i: int| secret.len() <= i < text.len() implies #[trigger] text[i] as int == 0x0d
        || text[i] as int == 0x0a by {
        assert(text[i] == '\r' || text[i] == '\n');
    }
}

/// Environment variables are looked up by name, files by path: absolute paths as they are, relative
/// ones from the base on. What is kept at AWS is not looked up.
pub proof fn sources_lead_to_the_local_machine(
    base: Seq<char>,
    name: Seq<char>,
    path: Seq<char>,
    json_key: Option<Seq<char>>,
)
    ensures
        lookup_of(base, SecretSourceView::Env { name }) == Ok::<LookupView, Seq<Seq<char>>>(
            LookupView::Environment(name),
        ),
        path.len() > 0 && path[0] as int == 0x2f ==> lookup_of(base, SecretSourceView::File { path })
            == Ok::<LookupView, Seq<Seq<char>>>(LookupView::File(path)),
        !(path.len() > 0 && path[0] as int == 0x2f) && (base.len() == 0 || base[base.len()
            - 1] as int == 0x2f) ==> lookup_of(base, SecretSourceView::File { path }) == Ok::<
            LookupView,
            Seq<Seq<char>>,
        >(LookupView::File(base + path)),
        !(path.len() > 0 && path[0] as int == 0x2f) && base.len() > 0 && base[base.len() - 1] as int
            != 0x2f ==> lookup_of(base, SecretSourceView::File { path }) == Ok::<
            LookupView,
            Seq<Seq<char>>,
        >(LookupView::File(base + "/"@ + path)),
        lookup_of(base, SecretSourceView::SsmParameter { name }) == Err::<
            LookupView,
            Seq<Seq<char>>,
        >(seq!["AWS secret sources are not supported by the File provider"@]),
        lookup_of(base, SecretSourceView::SecretsManager { secret_id: name, json_key }) == Err::<
            LookupView,
            Seq<Seq<char>>,
        >(seq!["AWS secret sources are not supported by the File provider"@]),
{
}

/// Variables are read from the environment and files from disk, under the name or path that was
/// looked up and no other.
pub proof fn lookups_read_what_they_name<S: LocalSecrets>(
    secrets: &S,
    name: &str,
    text: String,
    error: ConfigError,
)
    ensures
        call_ensures(S::environment, (secrets, name), Ok::<String, ConfigError>(text)) ==> looks_up(
            secrets,
            LookupView::Environment(name@),
            Ok(text@),
        ),
        call_ensures(S::environment, (secrets, name), Err::<String, ConfigError>(error)) ==> looks_up(
            secrets,
            LookupView::Environment(name@),
            Err(error@),
        ),
        call_ensures(S::file, (secrets, name), Ok::<String, ConfigError>(text)) ==> looks_up(
            secrets,
            LookupView::File(name@),
            Ok(text@),
        ),
        call_ensures(S::file, (secrets, name), Err::<String, ConfigError>(error)) ==> looks_up(
            secrets,
            LookupView::File(name@),
            Err(error@),
        ),
        forall|found: Reply| #[trigger]
            looks_up(secrets, LookupView::Environment(name@), found) ==> exists|
                asked: &str,
                answer: Result<String, ConfigError>,
            |
                asked@ == name@ && #[trigger] call_ensures(S::environment, (secrets, asked), answer)
                    && (match answer {
                    Ok(text) => found == Ok::<Seq<char>, Seq<Seq<char>>>(text@),
                    Err(error) => found == Err::<Seq<char>, Seq<Seq<char>>>(error@),
                }),
        forall|found: Reply| #[trigger]
            looks_up(secrets, LookupView::File(name@), found) ==> exists|
                asked: &str,
                answer: Result<String, ConfigError>,
            |
                asked@ == name@ && #[trigger] call_ensures(S::file, (secrets, asked), answer) && (
                match answer {
                    Ok(text) => found == Ok::<Seq<char>, Seq<Seq<char>>>(text@),
                    Err(error) => found == Err::<Seq<char>, Seq<Seq<char>>>(error@),
                }),
{
    assert(found_text(Ok(text)) == Ok::<Seq<char>, Seq<Seq<char>>>(text@));
    assert(found_text(Err(error)) == Err::<Seq<char>, Seq<Seq<char>>>(error@));
}

/// The secrets of a resource file: values are given as they are, what leads nowhere on the local
/// machine is refused, and everything else is what was found there, without line ends.
pub proof fn given_secrets_are_values_or_found<S: LocalSecrets>(
    base: Seq<char>,
    secrets: &S,
    value: Seq<char>,
    source: SecretSourceView,
    reply: Reply,
)
    ensures
        gives(base, secrets, RequestView::Value(value), reply) <==> reply == Ok::<
            Seq<char>,
            Seq<Seq<char>>,
        >(value),
        lookup_of(base, source) matches Err(error) ==> (gives(
            base,
            secrets,
            RequestView::Source(source),
            reply,
        ) <==> reply == Err::<Seq<char>, Seq<Seq<char>>>(error)),
        lookup_of(base, source) matches Ok(lookup) ==> (gives(
            base,
            secrets,
            RequestView::Source(source),
            reply,
        ) <==> exists|found: Reply| #[trigger]
            looks_up(secrets, lookup, found) && reply == secret_of(found)),
{
}

/// The replies of a resource file's compilation are its secrets for the requests that are open at
/// their points, each for its own.
pub proof fn given_replies_answer_their_requests<S: LocalSecrets>(
    documents: Seq<ResourceDocument>,
    base: Seq<char>,
    secrets: &S,
    replies: Seq<Reply>,
    i: int,
)
    ensures
        given_at(documents, base, secrets, replies, i) <==> (match compilation(
            documents,
            replies.take(i),
        ) {
            Progress::Ask(request) => gives(base, secrets, request, replies[i]),
            Progress::Done(_) => false,
        }),
{
}

/// Segments that lead nowhere do not count at the end of a text.
proof fn lemma_settled(text: Seq<char>)
    ensures
        settled(text + "/"@) == settled(text),
        settled(text + "/."@) == settled(text),
{
    reveal_strlit("/");
    reveal_strlit("/.");
    reveal_strlit(".");
    let empty = Seq::<char>::empty();
    let start = text + "/"@;
    assert forall|i: int| 0 <= i < "."@.len() implies "."@[i] != '/' by {}
    assert(!"."@.contains('/'));
    assert(!empty.contains('/'));
    lemma_last_slash(start, empty);
    lemma_last_slash(start, "."@);
    assert(start + empty =~= start);
    assert(start + "."@ =~= text + "/."@);
    assert(start.drop_last() =~= text);
    assert(last_segment(start) =~= empty);
    assert(last_segment(text + "/."@) =~= "."@);
    assert(without_last_segment(start) == text);
    assert(without_last_segment(text + "/."@) == text);
}

/// The directory of a file that a slash follows, or a slash and a dot, is that of the file.
pub proof fn directories_ignore_what_leads_nowhere(path: Seq<char>)
    requires
        path.len() > 0,
    ensures
        directory_of(path + "/"@) == directory_of(path),
        directory_of(path + "/."@) == directory_of(path),
{
    reveal_strlit("/");
    reveal_strlit("/.");
    let n = lead(path);
    let rest = path.skip(n);
    lemma_settled(rest);
    assert(lead(path + "/"@) == n);
    assert(lead(path + "/."@) == n);
    assert((path + "/"@).skip(n) =~= rest + "/"@);
    assert((path + "/."@).skip(n) =~= rest + "/."@);
    assert((path + "/"@).take(n) =~= path.take(n));
    assert((path + "/."@).take(n) =~= path.take(n));
}

/// A file by name alone has an empty directory, one in the root directory that directory. What names
/// no file lies in the current directory: the empty path, the root, and the current directory, whose
/// own is left out.
pub proof fn directories_of_single_names(name: Seq<char>)
    requires
        !idle_segment(name),
        !name.contains('/'),
    ensures
        directory_of(name) == Seq::<char>::empty(),
        directory_of("/"@ + name) == "/"@,
        directory_of("//"@ + name) == "/"@,
        directory_of("/./"@ + name) == "/"@,
        directory_of(Seq::<char>::empty()) == "."@,
        directory_of("/"@) == "."@,
        directory_of("."@) == Seq::<char>::empty(),
{
    reveal_strlit("/");
    reveal_strlit(".");
    let empty = Seq::<char>::empty();
    lemma_no_slash(name);
    assert(name.skip(0) =~= name);
    assert(last_segment(name) =~= name);
    assert(settled(name) == name);
    assert(without_last_segment(name) =~= empty);
    assert(settled(empty) == empty);
    assert(name[0] != '/') by {
        assert(name.contains(name[0]));
    }
    if name[0] == '.' && name.len() == 1 {
        assert(name =~= "."@);
    }
    if name.len() > 1 {
        assert(name[1] != '/') by {
            assert(name.contains(name[1]));
        }
    }
    assert(lead(name) == 0);
    assert(name.take(0) + empty =~= empty);
    let path = "/"@ + name;
    assert(lead(path) == 1);
    assert(path.skip(1) =~= name);
    assert(path.take(1) + empty =~= "/"@);
    reveal_strlit("//");
    reveal_strlit("/.");
    reveal_strlit("/./");
    let double = "//"@ + name;
    let dotted = "/./"@ + name;
    lemma_directory_body(empty, name);
    lemma_directory_body("."@, name);
    assert(double.skip(1) =~= empty + "/"@ + name);
    assert(dotted.skip(1) =~= "."@ + "/"@ + name);
    assert(!"."@.contains('/'));
    lemma_no_slash("."@);
    assert(last_segment("."@) =~= "."@);
    assert(without_last_segment("."@) =~= empty);
    assert(settled("."@) == empty);
    assert(double.take(1) + empty =~= "/"@);
    assert(dotted.take(1) + empty =~= "/"@);
    assert(empty.skip(0) =~= empty);
    assert("/"@.skip(1) =~= empty);
    assert("."@.skip(1) =~= empty);
}

/// Segments that lead nowhere between the directory and the name of a file do not count.
pub proof fn directories_ignore_detours(directory: Seq<char>, name: Seq<char>)
    requires
        directory.len() > 0,
        !idle_segment(name),
        !name.contains('/'),
    ensures
        directory_of(directory + "//"@ + name) == directory_of(directory + "/"@ + name),
        directory_of(directory + "/./"@ + name) == directory_of(directory + "/"@ + name),
{
    reveal_strlit("/");
    reveal_strlit("//");
    reveal_strlit("/.");
    reveal_strlit("/./");
    let plain = directory + "/"@ + name;
    let double = directory + "//"@ + name;
    let dotted = directory + "/./"@ + name;
    let n = lead(plain);
    let inner = directory.skip(n);
    assert(lead(double) == n && lead(dotted) == n);
    assert(plain.take(n) =~= directory.take(n));
    assert(double.take(n) =~= directory.take(n));
    assert(dotted.take(n) =~= directory.take(n));
    lemma_directory_body(inner, name);
    lemma_directory_body(inner + "/"@, name);
    lemma_directory_body(inner + "/."@, name);
    assert(plain.skip(n) =~= inner + "/"@ + name);
    assert(double.skip(n) =~= inner + "/"@ + "/"@ + name);
    assert(dotted.skip(n) =~= inner + "/."@ + "/"@ + name);
    lemma_settled(inner);
}

proof fn lemma_directory_body(inner: Seq<char>, name: Seq<char>)
    requires
        !idle_segment(name),
        !name.contains('/'),
    ensures
        settled(inner + "/"@ + name) == inner + "/"@ + name,
        without_last_segment(inner + "/"@ + name) == inner,
{
    reveal_strlit("/");
    let start = inner + "/"@;
    lemma_last_slash(start, name);
    assert(last_segment(start + name) =~= name);
    assert(start.drop_last() =~= inner);
}

/// What is read of lookups and of texts that were found is what they hold.
pub proof fn lookup_views_are_contents(name: String, text: String, error: ConfigError)
    ensures
        SecretLookup::Environment(name)@ == LookupView::Environment(name@),
        SecretLookup::File(name)@ == LookupView::File(name@),
        found_text(Ok(text)) == Ok::<Seq<char>, Seq<Seq<char>>>(text@),
        found_text(Err(error)) == Err::<Seq<char>, Seq<Seq<char>>>(error@),
        DEFAULT_PATH@ == "/etc/oauthmux/config.yaml"@,
        DEFAULT_POLL_SECONDS == 30,
{
}

} // verus!
