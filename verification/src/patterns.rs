//! Regular expressions over plain strings, and the link patterns of the bot.
//!
//! A [`Pattern`] pairs the source text of a regular expression with the
//! expression compiled by the `regex` crate; its view is the source text.
//! What the `regex` crate computes on a pattern and a haystack is named by
//! the spec functions below, applied to the pattern's source.
use vstd::prelude::*;

verus! {

#[verifier::external_type_specification]
#[verifier::external_body]
pub struct ExRegex(regex::Regex);

/// Whether `regex::Regex::new` accepts `pattern`.
pub uninterp spec fn regex_compiles(pattern: Seq<char>) -> bool;

/// What `regex::Regex::is_match` answers for `pattern` on `haystack`.
pub uninterp spec fn regex_is_match(pattern: Seq<char>, haystack: Seq<char>) -> bool;

/// The texts of the successive non-overlapping matches that
/// `regex::Regex::find_iter` yields for `pattern` on `haystack`.
pub uninterp spec fn regex_find_all(pattern: Seq<char>, haystack: Seq<char>) -> Seq<Seq<char>>;

/// For each successive match that `regex::Regex::captures_iter` yields for
/// `pattern` on `haystack`, the texts of the named groups `groups`
/// (`None` for a group that did not take part in the match).
pub uninterp spec fn regex_captures(
    pattern: Seq<char>,
    haystack: Seq<char>,
    groups: Seq<Seq<char>>,
) -> Seq<Seq<Option<Seq<char>>>>;

/// What `regex::Regex::replace` gives for `pattern` on `haystack`: the
/// leftmost-first match replaced by `replacement`, in which `$name`
/// refers to a capture group.
pub uninterp spec fn regex_replace_first(
    pattern: Seq<char>,
    haystack: Seq<char>,
    replacement: Seq<char>,
) -> Seq<char>;

/// What `regex::Regex::replace_all` gives for `pattern` on `haystack`:
/// every non-overlapping match replaced by `replacement`, in which `$name`
/// refers to a capture group.
pub uninterp spec fn regex_replace_all(
    pattern: Seq<char>,
    haystack: Seq<char>,
    replacement: Seq<char>,
) -> Seq<char>;

/// A compiled regular expression together with its source text.
pub struct Pattern {
    source: String,
    compiled: regex::Regex,
}

impl View for Pattern {
    type V = Seq<char>;

    closed spec fn view(&self) -> Seq<char> {
        self.source@
    }
}

impl Pattern {
    /// The pattern `source`, compiled; `None` where it is not a valid
    /// regular expression.
    pub fn new(source: &str) -> (r: Option<Pattern>)
        ensures
            r is Some <==> regex_compiles(source@),
            r matches Some(p) ==> p@ == source@,
    {
        Self::compile(source)
    }

    /// Compiles `source` with `regex::Regex::new`; `None` where that
    /// function returns an error. Claims that the result is `Some` exactly
    /// where `regex_compiles` holds, and that the pattern's view is `source`.
    #[verifier::external_body]
    fn compile(source: &str) -> (r: Option<Pattern>)
        ensures
            r is Some <==> regex_compiles(source@),
            r matches Some(p) ==> p@ == source@,
    {
        match regex::Regex::new(source) {
            Ok(compiled) => Some(Pattern { source: source.to_string(), compiled }),
            Err(_) => None,
        }
    }

    /// Calls `regex::Regex::is_match`; claims its answer is `regex_is_match`
    /// of the source and the haystack.
    #[verifier::external_body]
    pub(crate) fn is_match(&self, haystack: &str) -> (r: bool)
        ensures
            r == regex_is_match(self@, haystack@),
    {
        self.compiled.is_match(haystack)
    }

    /// Collects the texts of the matches of `regex::Regex::find_iter`;
    /// claims they are `regex_find_all` of the source and the haystack, and,
    /// as the crate documents, that there is at least one exactly where
    /// `is_match` holds.
    #[verifier::external_body]
    pub(crate) fn find_all(&self, haystack: &str) -> (r: Vec<String>)
        ensures
            r.deep_view() == regex_find_all(self@, haystack@),
            r@.len() > 0 <==> regex_is_match(self@, haystack@),
    {
        let mut r = Vec::new();
        for m in self.compiled.find_iter(haystack) {
            r.push(m.as_str().to_string());
        }
        r
    }

    /// Collects, for each match of `regex::Regex::captures_iter`, the texts
    /// of the named groups `groups` given by `Captures::name`; claims they
    /// are `regex_captures` of the source, the haystack and the group
    /// names, one entry per group name.
    #[verifier::external_body]
    pub(crate) fn captures(&self, haystack: &str, groups: &Vec<String>) -> (r: Vec<Vec<Option<String>>>)
        ensures
            r.deep_view() == regex_captures(self@, haystack@, groups.deep_view()),
            forall|i: int| 0 <= i < r@.len() ==> #[trigger] r@[i]@.len() == groups@.len(),
    {
        let mut r = Vec::new();
        for caps in self.compiled.captures_iter(haystack) {
            let mut row = Vec::new();
            for g in groups.iter() {
                row.push(caps.name(g).map(|m| m.as_str().to_string()));
            }
            r.push(row);
        }
        r
    }

    /// Calls `regex::Regex::replace`; claims the result is
    /// `regex_replace_first` of the source, the haystack and the
    /// replacement, and, as the crate documents, the haystack itself where
    /// there is no match.
    #[verifier::external_body]
    pub(crate) fn replace_first(&self, haystack: &str, replacement: &str) -> (r: String)
        ensures
            r@ == regex_replace_first(self@, haystack@, replacement@),
            !regex_is_match(self@, haystack@) ==> r@ == haystack@,
    {
        self.compiled.replace(haystack, replacement).into_owned()
    }

    /// Calls `regex::Regex::replace_all`; claims the result is
    /// `regex_replace_all` of the source, the haystack and the replacement,
    /// and, as the crate documents, the haystack itself where there is no
    /// match.
    #[verifier::external_body]
    pub(crate) fn replace_all(&self, haystack: &str, replacement: &str) -> (r: String)
        ensures
            r@ == regex_replace_all(self@, haystack@, replacement@),
            !regex_is_match(self@, haystack@) ==> r@ == haystack@,
    {
        self.compiled.replace_all(haystack, replacement).into_owned()
    }
}

/// Links to an Amazon Japan product; the group `asin` holds its ASIN.
pub const AMAZON_LINK: &'static str = r"https?://.*?amazon\.co\.jp.*/(gp(/product)?|dp|ASIN)/(?P<asin>[^/?]{10,})\S*";

/// Links to a tweet anywhere in a text; groups `username` and `tweetId`.
pub const TWEET_LINK: &'static str = r"https?://twitter.com/(?P<username>[^/\s]+)/status/(?P<tweetId>[0-9]+)";

/// A whole embed URL that points at a tweet.
pub const TWEET_EMBED_URL: &'static str = r"^https?://twitter.com/(?P<username>[^/\s]+)/status/(?P<tweetId>[0-9]+)(\?s=[0-9]+|)";

/// Links to a Discord message; groups `guild_id`, `channel_id`, `message_id`.
pub const MESSAGE_LINK: &'static str = r"https?://(?:(ptb|canary|www)\.)?discord(?:app)?\.com/channels/(?P<guild_id>[0-9]{15,20}|@me)/(?P<channel_id>[0-9]{15,20})/(?P<message_id>[0-9]{15,20})/?";

/// The compiled link patterns that the bot matches messages against.
pub struct LinkPatterns {
    amazon: Pattern,
    tweet: Pattern,
    tweet_embed: Pattern,
    message: Pattern,
}

impl LinkPatterns {
    #[verifier::type_invariant]
    spec fn sources_match(self) -> bool {
        &&& self.amazon@ == AMAZON_LINK@
        &&& self.tweet@ == TWEET_LINK@
        &&& self.tweet_embed@ == TWEET_EMBED_URL@
        &&& self.message@ == MESSAGE_LINK@
    }

    /// Whether all four link patterns compile.
    pub open spec fn all_compile() -> bool {
        &&& regex_compiles(AMAZON_LINK@)
        &&& regex_compiles(TWEET_LINK@)
        &&& regex_compiles(TWEET_EMBED_URL@)
        &&& regex_compiles(MESSAGE_LINK@)
    }

    /// Compiles the link patterns; `None` exactly where one of them does
    /// not compile.
    pub fn new() -> (r: Option<LinkPatterns>)
        ensures
            r is Some <==> Self::all_compile(),
    {
        let amazon = Pattern::new(AMAZON_LINK);
        let tweet = Pattern::new(TWEET_LINK);
        let tweet_embed = Pattern::new(TWEET_EMBED_URL);
        let message = Pattern::new(MESSAGE_LINK);
        match (amazon, tweet, tweet_embed, message) {
            (Some(amazon), Some(tweet), Some(tweet_embed), Some(message)) => Some(
                LinkPatterns { amazon, tweet, tweet_embed, message },
            ),
            _ => None,
        }
    }

    /// Whether `content` holds an Amazon product link.
    pub fn is_amazon_link(&self, content: &str) -> (r: bool)
        ensures
            r == regex_is_match(AMAZON_LINK@, content@),
    {
        self.amazon().is_match(content)
    }

    /// The Amazon product link pattern.
    pub fn amazon(&self) -> (p: &Pattern)
        ensures
            p@ == AMAZON_LINK@,
    {
        proof {
            use_type_invariant(self);
        }
        &self.amazon
    }

    /// The tweet link pattern.
    pub fn tweet(&self) -> (p: &Pattern)
        ensures
            p@ == TWEET_LINK@,
    {
        proof {
            use_type_invariant(self);
        }
        &self.tweet
    }

    /// The tweet embed URL pattern.
    pub fn tweet_embed(&self) -> (p: &Pattern)
        ensures
            p@ == TWEET_EMBED_URL@,
    {
        proof {
            use_type_invariant(self);
        }
        &self.tweet_embed
    }

    /// The Discord message link pattern.
    pub fn message(&self) -> (p: &Pattern)
        ensures
            p@ == MESSAGE_LINK@,
    {
        proof {
            use_type_invariant(self);
        }
        &self.message
    }
}

} // verus!
