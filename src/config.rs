//! Settings: the command-line filters, the relay server's credentials, and
//! the configuration file's contents once read.

use vstd::prelude::*;
use base64::Engine;
use crate::status::{classify_text, TaskStatus};
use crate::text::{chars_of, push_char};
use crate::token::{slice_string, views};

verus! {

/// The pieces of `s[start..]` between commas, given that `s[start..i]`
/// holds none.
pub open spec fn split_from(s: Seq<char>, start: int, i: int) -> Seq<Seq<char>>
    decreases s.len() - i,
{
    if i < 0 || i >= s.len() {
        seq![s.subrange(start, s.len() as int)]
    } else if s[i] == ',' {
        seq![s.subrange(start, i)] + split_from(s, i + 1, i + 1)
    } else {
        split_from(s, start, i + 1)
    }
}

/// The pieces of `s` between commas; an empty `s` is one empty piece.
pub open spec fn split_commas(s: Seq<char>) -> Seq<Seq<char>> {
    split_from(s, 0, 0)
}

/// The pieces of `s` between commas.
pub fn split_on_commas(s: &str) -> (r: Vec<String>)
    ensures
        views(r@) == split_commas(s@),
{
    let c = chars_of(s);
    let mut r: Vec<String> = Vec::new();
    let mut start: usize = 0;
    let mut i: usize = 0;
    while i < c.len()
        invariant
            start <= i <= c@.len(),
            c@ == s@,
            views(r@) + split_from(c@, start as int, i as int) == split_commas(c@),
        decreases c@.len() - i,
    {
        if c[i] == ',' {
            let piece = slice_string(&c, start, i);
            let ghost prev = r@;
            r.push(piece);
            assert(views(r@) =~= views(prev).push(piece@));
            assert(views(prev).push(piece@) + split_from(c@, i + 1, i + 1) =~= views(prev) + (
            seq![piece@] + split_from(c@, i + 1, i + 1)));
            start = i + 1;
        }
        i = i + 1;
    }
    let piece = slice_string(&c, start, c.len());
    let ghost prev = r@;
    r.push(piece);
    assert(views(r@) =~= views(prev) + seq![piece@]);
    r
}

/// What the command line asks for.
pub struct Args {
    /// Root directory of the knowledge base.
    pub dir: Option<String>,
    /// Statuses to show, comma separated: `todo`, `wip`, `review`.
    pub status: Option<String>,
    /// Statuses not to show, comma separated.
    pub not_status: Option<String>,
    /// Contexts to show, comma separated, without the `#x` prefix.
    pub context: Option<String>,
    /// Contexts not to show, comma separated, without the `#x` prefix.
    pub not_context: Option<String>,
    pub pivot: Option<bool>,
    pub json: Option<bool>,
    pub web: Option<bool>,
}

/// The statuses that a comma-separated list names: each piece `p` reads as
/// the text `@p`.
pub open spec fn status_list(s: Option<String>) -> Seq<TaskStatus> {
    match s {
        Some(v) => split_commas(v@).map_values(|p: Seq<char>| classify_text(seq!['@'] + p)),
        None => Seq::empty(),
    }
}

/// The contexts that a comma-separated list names: each piece `p` is the
/// context `#xp`.
pub open spec fn context_list(s: Option<String>) -> Seq<Seq<char>> {
    match s {
        Some(v) => split_commas(v@).map_values(|p: Seq<char>| seq!['#', 'x'] + p),
        None => Seq::empty(),
    }
}

impl Args {
    /// The statuses named by a comma-separated list; none without a list.
    pub fn parse_status_arg(status: &Option<String>) -> (r: Vec<TaskStatus>)
        ensures
            r@ == status_list(*status),
    {
        match status {
            None => Vec::new(),
            Some(s) => {
                let pieces = split_on_commas(s.as_str());
                let mut r: Vec<TaskStatus> = Vec::new();
                for k in 0..pieces.len()
                    invariant
                        views(pieces@) == split_commas(s@),
                        r@ == views(pieces@).take(k as int).map_values(
                            |p: Seq<char>| classify_text(seq!['@'] + p),
                        ),
                {
                    let mut text = String::new();
                    push_char(&mut text, '@');
                    text.append(pieces[k].as_str());
                    assert(text@ =~= seq!['@'] + pieces@[k as int]@);
                    let st = TaskStatus::classify(text.as_str());
                    r.push(st);
                    assert(views(pieces@).take(k + 1) =~= views(pieces@).take(k as int).push(
                        pieces@[k as int]@,
                    ));
                    assert(r@ =~= views(pieces@).take(k + 1).map_values(
                        |p: Seq<char>| classify_text(seq!['@'] + p),
                    ));
                }
                assert(views(pieces@).take(pieces@.len() as int) =~= views(pieces@));
                r
            },
        }
    }

    /// The statuses to show.
    pub fn statuses(&self) -> (r: Vec<TaskStatus>)
        ensures
            r@ == status_list(self.status),
    {
        Args::parse_status_arg(&self.status)
    }

    /// The statuses not to show.
    pub fn not_statuses(&self) -> (r: Vec<TaskStatus>)
        ensures
            r@ == status_list(self.not_status),
    {
        Args::parse_status_arg(&self.not_status)
    }

    /// The contexts named by a comma-separated list; none without a list.
    pub fn parse_context_arg(context: &Option<String>) -> (r: Vec<String>)
        ensures
            views(r@) == context_list(*context),
    {
        match context {
            None => {
                let r: Vec<String> = Vec::new();
                assert(views(r@) =~= Seq::<Seq<char>>::empty());
                r
            },
            Some(s) => {
                let pieces = split_on_commas(s.as_str());
                let mut r: Vec<String> = Vec::new();
                for k in 0..pieces.len()
                    invariant
                        views(pieces@) == split_commas(s@),
                        views(r@) == views(pieces@).take(k as int).map_values(
                            |p: Seq<char>| seq!['#', 'x'] + p,
                        ),
                {
                    let mut tag = String::new();
                    push_char(&mut tag, '#');
                    push_char(&mut tag, 'x');
                    tag.append(pieces[k].as_str());
                    assert(tag@ =~= seq!['#', 'x'] + pieces@[k as int]@);
                    let ghost prev = r@;
                    r.push(tag);
                    assert(views(pieces@).take(k + 1) =~= views(pieces@).take(k as int).push(
                        pieces@[k as int]@,
                    ));
                    assert(views(r@) =~= views(prev).push(tag@));
                    assert(views(r@) =~= views(pieces@).take(k + 1).map_values(
                        |p: Seq<char>| seq!['#', 'x'] + p,
                    ));
                }
                assert(views(pieces@).take(pieces@.len() as int) =~= views(pieces@));
                r
            },
        }
    }

    /// The contexts to show.
    pub fn contexts(&self) -> (r: Vec<String>)
        ensures
            views(r@) == context_list(self.context),
    {
        Args::parse_context_arg(&self.context)
    }

    /// The contexts not to show.
    pub fn not_context(&self) -> (r: Vec<String>)
        ensures
            views(r@) == context_list(self.not_context),
    {
        Args::parse_context_arg(&self.not_context)
    }
}

/// The padded URL-safe base64 encoding of the UTF-8 bytes of `s`.
pub uninterp spec fn base64_url_safe_of(s: Seq<char>) -> Seq<char>;

/// Relies on `base64::engine::general_purpose::URL_SAFE.encode` (base64
/// 0.21): the padded URL-safe encoding of the bytes of `s`, which depends on
/// them alone. Its size computation cannot overflow for the byte length of
/// any `str`, which is at most `isize::MAX`.
#[verifier::external_body]
fn encode_url_safe(s: &str) -> (r: String)
    ensures
        r@ == base64_url_safe_of(s@),
{
    base64::engine::general_purpose::URL_SAFE.encode(s)
}

/// Where and as whom tasks are pushed to the relay server.
pub struct ServerConfig {
    host: String,
    user: String,
    psw: String,
}

/// `user:psw`, the credentials of basic authentication.
pub open spec fn credentials(user: Seq<char>, psw: Seq<char>) -> Seq<char> {
    user + seq![':'] + psw
}

impl ServerConfig {
    pub fn new(host: String, user: String, psw: String) -> (r: ServerConfig)
        ensures
            r.host_spec() == host@,
            r.user_spec() == user@,
            r.psw_spec() == psw@,
    {
        ServerConfig { host, user, psw }
    }

    pub closed spec fn host_spec(&self) -> Seq<char> {
        self.host@
    }

    pub closed spec fn user_spec(&self) -> Seq<char> {
        self.user@
    }

    pub closed spec fn psw_spec(&self) -> Seq<char> {
        self.psw@
    }

    /// The host.
    pub fn host(&self) -> (r: &String)
        ensures
            r@ == self.host_spec(),
    {
        &self.host
    }

    /// The user name.
    pub fn user_name(&self) -> (r: &String)
        ensures
            r@ == self.user_spec(),
    {
        &self.user
    }

    /// The password.
    pub fn password(&self) -> (r: &String)
        ensures
            r@ == self.psw_spec(),
    {
        &self.psw
    }

    /// The token of basic authentication: `user:psw` in URL-safe base64.
    pub fn basic_token(&self) -> (r: String)
        ensures
            r@ == base64_url_safe_of(credentials(self.user_spec(), self.psw_spec())),
    {
        let mut merge = self.user.clone();
        push_char(&mut merge, ':');
        merge.append(self.psw.as_str());
        assert(merge@ =~= credentials(self.user_spec(), self.psw_spec()));
        encode_url_safe(merge.as_str())
    }

    /// The value of the `Authorization` header: `Basic ` and the token.
    pub fn authorization(&self) -> (r: String)
        ensures
            r@ == seq!['B', 'a', 's', 'i', 'c', ' '] + base64_url_safe_of(
                credentials(self.user_spec(), self.psw_spec()),
            ),
    {
        let prefix = "Basic ";
        proof {
            reveal_strlit("Basic ");
        }
        let token = self.basic_token();
        let mut r = String::from_str(prefix);
        r.append(token.as_str());
        assert(r@ =~= seq!['B', 'a', 's', 'i', 'c', ' '] + token@);
        r
    }

    /// Where the tasks are posted: the host followed by `/tasks`.
    pub fn tasks_url(&self) -> (r: String)
        ensures
            r@ == self.host_spec() + seq!['/', 't', 'a', 's', 'k', 's'],
    {
        let suffix = "/tasks";
        proof {
            reveal_strlit("/tasks");
        }
        let mut r = self.host.clone();
        r.append(suffix);
        assert(r@ =~= self.host_spec() + seq!['/', 't', 'a', 's', 'k', 's']);
        r
    }
}

/// The contents of the configuration file; every entry may be missing.
pub struct ConfigFile {
    pub default_dirs: Option<Vec<String>>,
    pub inbox_path: Option<String>,
    pub ignore_files: Option<Vec<String>>,
    pub default_not_context: Option<Vec<String>>,
    pub server: Option<ServerConfig>,
}

impl ConfigFile {
    /// The configuration used when no file can be read: every entry missing.
    pub fn new() -> (r: ConfigFile)
        ensures
            r.default_dirs is None,
            r.inbox_path is None,
            r.ignore_files is None,
            r.default_not_context is None,
            r.server is None,
    {
        ConfigFile {
            default_dirs: None,
            inbox_path: None,
            ignore_files: None,
            default_not_context: None,
            server: None,
        }
    }
}

/// The line appended to the inbox file for `message` noted on `today`.
pub fn inbox_line(message: &str, today: &str) -> (r: String)
    ensures
        r@ == seq!['\n', '-', ' '] + message@ + seq![' ', '@', 'd'] + today@,
{
    let mut r = String::new();
    push_char(&mut r, '\n');
    push_char(&mut r, '-');
    push_char(&mut r, ' ');
    r.append(message);
    push_char(&mut r, ' ');
    push_char(&mut r, '@');
    push_char(&mut r, 'd');
    r.append(today);
    assert(r@ =~= seq!['\n', '-', ' '] + message@ + seq![' ', '@', 'd'] + today@);
    r
}

} // verus!
