//! The command line.

use vstd::prelude::*;

verus! {

/// The page size of the server's cache: 2 MiB.
pub const SERVER_PAGESIZE: u64 = 2097152;

/// Low-latency, content-addressed file server with a non-volatile cache.
///
/// This file server can be configured to use one of multiple provider. Library
/// use is more flexible. For the command-line interface, it can read from an S3
/// bucket or local NFS-mounted directory, optionally with a fallback provider.
/// It also optionally takes a path to a cache directory.
///
/// Files are keyed by their content hashes, and the cache is meant to be
/// considered volatile at all times.
#[derive(Debug)]
pub struct Cli {
    /// String representation of the data provider.
    pub source: String,
    /// Fallback provider if data is not found in `source`.
    pub fallback: Option<String>,
    /// Cache directory for non-volatile local storage.
    pub cache: Option<String>,
    /// Secret used to authorize users to access the service.
    pub secret: String,
    /// TCP port that the HTTP server listens on.
    pub port: u16,
    /// Listen on a Unix domain socket instead of `port`.
    pub unix_socket: Option<String>,
    /// Emit metrics to StatsD at 127.0.0.1:8125
    pub statsd: bool,
}

/// Where the server listens.
pub enum ListenOn {
    /// On a Unix domain socket at this path.
    UnixSocket(String),
    /// On this TCP port, of every address of the machine.
    TcpPort(u16),
}

impl Cli {
    /// Where the server listens. A socket goes before the port.
    pub fn listen_on(&self) -> (listen: ListenOn)
        ensures
            match self.unix_socket {
                Some(path) => listen matches ListenOn::UnixSocket(given) && given@ == path@,
                None => listen == ListenOn::TcpPort(self.port),
            },
    {
        match &self.unix_socket {
            Some(path) => ListenOn::UnixSocket(path.clone()),
            None => ListenOn::TcpPort(self.port),
        }
    }

    /// The page size of the cache, where there is to be one.
    pub fn cache_pagesize(&self) -> (pagesize: Option<u64>)
        ensures
            pagesize == (if self.cache is Some {
                Some(SERVER_PAGESIZE)
            } else {
                None
            }),
            self.cache is Some ==> pagesize == Some(2097152u64),
    {
        match &self.cache {
            Some(_) => Some(SERVER_PAGESIZE),
            None => None,
        }
    }
}

/// A provider that the command line names.
pub enum ProviderSource {
    /// Blobs in memory.
    Memory,
    /// Blobs in the S3 bucket of this name.
    S3(String),
    /// Blobs in the directory of this path.
    LocalDir(String),
}

/// The first colon of a text stands at `i`.
pub open spec fn is_first_colon(text: Seq<char>, i: int) -> bool {
    &&& 0 <= i < text.len()
    &&& text[i] == ':'
    &&& forall|j: int| 0 <= j < i ==> text[j] != ':'
}

/// How a text is written between quotes, with escapes where they are needed.
pub uninterp spec fn quoted(text: Seq<char>) -> Seq<char>;

/// `<str as Debug>::fmt`: the text between quotes, with escapes where they are needed.
#[verifier::external_body]
fn quote(text: &str) -> (written: String)
    ensures
        written@ == quoted(text@),
{
    format!("{:?}", text)
}

/// What is said about a provider that cannot be parsed.
pub open spec fn no_colon_message(source: Seq<char>) -> Seq<char> {
    "source "@ + quoted(source) + " has no ':' character"@
}

/// What is said about a provider of an unknown type.
pub open spec fn unknown_kind_message(kind: Seq<char>) -> Seq<char> {
    "unknown provider type "@ + quoted(kind)
}

/// `parsed` is what the provider type `kind` with the argument `arg` is parsed to.
pub open spec fn is_provider(
    kind: Seq<char>,
    arg: Seq<char>,
    parsed: Result<ProviderSource, String>,
) -> bool {
    if kind == "memory"@ {
        parsed == Ok::<ProviderSource, String>(ProviderSource::Memory)
    } else if kind == "s3"@ {
        parsed matches Ok(ProviderSource::S3(bucket)) && bucket@ == arg
    } else if kind == "localdir"@ {
        parsed matches Ok(ProviderSource::LocalDir(path)) && path@ == arg
    } else {
        parsed matches Err(message) && message@ == unknown_kind_message(kind)
    }
}

/// Attempt to parse a provider from CLI argument.
pub fn parse_provider(source: &str) -> (parsed: Result<ProviderSource, String>)
    ensures
        !source@.contains(':') ==> (parsed matches Err(message) && message@ == no_colon_message(
            source@,
        )),
        forall|i: int| #[trigger]
            is_first_colon(source@, i) ==> is_provider(
                source@.take(i),
                source@.skip(i + 1),
                parsed,
            ),
{
    let len: usize = source.unicode_len();
    let mut i: usize = 0;
    while i < len && source.get_char(i) != ':'
        invariant
            i <= len,
            len == source@.len(),
            forall|j: int| 0 <= j < i ==> source@[j] != ':',
        decreases len - i,
    {
        i = i + 1;
    }
    if i == len {
        assert(!source@.contains(':'));
        let mut message: String = "source ".to_owned();
        message.append(quote(source).as_str());
        message.append(" has no ':' character");
        return Err(message);
    }
    proof {
        assert(is_first_colon(source@, i as int));
        assert forall|j: int| #[trigger] is_first_colon(source@, j) implies j == i by {
            if j < i {
                assert(source@[j] != ':');
            } else if i < j {
                assert(source@[i as int] != ':');
            }
        }
    }
    let kind: String = source.substring_char(0, i).to_owned();
    let arg: String = source.substring_char(i + 1, len).to_owned();
    assert(kind@ =~= source@.take(i as int));
    assert(arg@ =~= source@.skip(i + 1));
    if kind == "memory".to_owned() {
        Ok(ProviderSource::Memory)
    } else if kind == "s3".to_owned() {
        Ok(ProviderSource::S3(arg))
    } else if kind == "localdir".to_owned() {
        Ok(ProviderSource::LocalDir(arg))
    } else {
        let mut message: String = "unknown provider type ".to_owned();
        message.append(quote(kind.as_str()).as_str());
        Err(message)
    }
}

/// The type of a provider is what stands in front of the first colon, and its argument is all that
/// follows, further colons included. `memory:`, `s3:` and `localdir:` name a provider with any
/// argument, and no other type names one.
pub proof fn law_argument_is_all_behind_first_colon(
    kind: Seq<char>,
    arg: Seq<char>,
    i: int,
    parsed: Result<ProviderSource, String>,
)
    requires
        !kind.contains(':'),
        is_first_colon(kind + seq![':'] + arg, i),
        is_provider(
            (kind + seq![':'] + arg).take(i),
            (kind + seq![':'] + arg).skip(i + 1),
            parsed,
        ),
    ensures
        i == kind.len(),
        kind == "memory"@ ==> parsed == Ok::<ProviderSource, String>(ProviderSource::Memory),
        kind == "s3"@ ==> (parsed matches Ok(ProviderSource::S3(bucket)) && bucket@ == arg),
        kind == "localdir"@ ==> (parsed matches Ok(ProviderSource::LocalDir(path)) && path@ == arg),
        parsed is Ok <==> kind == "memory"@ || kind == "s3"@ || kind == "localdir"@,
{
    let source = kind + seq![':'] + arg;
    reveal_strlit("memory");
    reveal_strlit("s3");
    reveal_strlit("localdir");
    assert(source[kind.len() as int] == ':');
    if i < kind.len() {
        assert(kind[i] == ':');
    } else if i > kind.len() {
        assert(source[kind.len() as int] != ':');
    }
    assert(source.take(i) =~= kind);
    assert(source.skip(i + 1) =~= arg);
    assert("memory"@.len() != "s3"@.len() && "memory"@.len() != "localdir"@.len());
}

/// A source always has a first colon, or none at all.
pub proof fn law_first_colon_exists(source: Seq<char>)
    ensures
        source.contains(':') <==> exists|i: int| is_first_colon(source, i),
    decreases source.len(),
{
    if source.contains(':') {
        let at = choose|i: int| 0 <= i < source.len() && source[i] == ':';
        let before = source.take(at);
        if before.contains(':') {
            law_first_colon_exists(before);
            let i = choose|i: int| is_first_colon(before, i);
            assert(source[i] == before[i]);
            assert forall|j: int| 0 <= j < i implies source[j] != ':' by {
                assert(source[j] == before[j]);
            }
            assert(is_first_colon(source, i));
        } else {
            assert forall|j: int| 0 <= j < at implies source[j] != ':' by {
                assert(before[j] == source[j]);
            }
            assert(is_first_colon(source, at));
        }
    }
}

/// A source that is refused is named in the message, between quotes.
pub proof fn law_messages_name_their_subject(source: Seq<char>)
    ensures
        ({
            let message = no_colon_message(source);
            let at = "source "@.len() as int;
            &&& message.take(at) == "source "@
            &&& message.subrange(at, at + quoted(source).len()) == quoted(source)
            &&& message.skip(at + quoted(source).len()) == " has no ':' character"@
        }),
        ({
            let message = unknown_kind_message(source);
            let at = "unknown provider type "@.len() as int;
            &&& message.take(at) == "unknown provider type "@
            &&& message.skip(at) == quoted(source)
        }),
{
    let at = "source "@.len() as int;
    let message = no_colon_message(source);
    assert(message.take(at) =~= "source "@);
    assert(message.subrange(at, at + quoted(source).len()) =~= quoted(source));
    assert(message.skip(at + quoted(source).len()) =~= " has no ':' character"@);
    let at = "unknown provider type "@.len() as int;
    let message = unknown_kind_message(source);
    assert(message.take(at) =~= "unknown provider type "@);
    assert(message.skip(at) =~= quoted(source));
}

} // verus!
