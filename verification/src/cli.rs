//! The command line: what the options ask for.

use std::path::PathBuf;

use vstd::prelude::*;

use crate::files;
use crate::text;

verus! {

/// The port that an SSH server listens on unless the target names another.
pub const DEFAULT_SSH_PORT: u16 = 22;

/// Seconds between keepalives unless `--keepalive-interval` says otherwise.
pub const DEFAULT_KEEPALIVE_INTERVAL: u64 = 15;

/// Missed keepalives that end a session unless `--keepalive-max` says otherwise.
pub const DEFAULT_KEEPALIVE_MAX: u32 = 3;

/// The address to listen on unless `--listen` says otherwise.
pub const DEFAULT_LISTEN: &'static str = "127.0.0.1:8080";

/// The options of one run.
#[derive(Debug)]
pub struct Args {
    /// SSH target in `user@host[:port]` form (port defaults to 22).
    pub target: String,
    /// HTTP CONNECT bind address.
    pub listen: String,
    /// Private key files, in the order in which they are tried.
    pub identity: Vec<PathBuf>,
    /// Read key passphrases from stdin instead of prompting on the TTY.
    pub passphrase_stdin: bool,
    /// Try ssh-agent.
    pub agent: bool,
    /// Try password auth.
    pub password: bool,
    /// Read the password from stdin.
    pub password_stdin: bool,
    /// known_hosts file path.
    pub known_hosts: Option<PathBuf>,
    /// Append unknown server keys to known_hosts.
    pub accept_new_host_keys: bool,
    /// Seconds between keepalives; 0 disables them.
    pub keepalive_interval: u64,
    /// Missed keepalives that end the session.
    pub keepalive_max: u32,
    /// Disable keepalives.
    pub no_keepalive: bool,
    /// How often `-v` was given.
    pub verbose: u8,
}

/// How often to probe a connection, and when to give it up.
#[derive(Debug, Clone, Copy)]
pub struct Keepalive {
    pub interval_secs: u64,
    pub max_missed: u32,
}

/// The account on the SSH server.
#[derive(Debug, Clone)]
pub struct SshTarget {
    pub user: String,
    pub host: String,
    pub port: u16,
}

/// What an `SshTarget` says.
pub struct SshTargetView {
    pub user: Seq<char>,
    pub host: Seq<char>,
    pub port: u16,
}

impl View for SshTarget {
    type V = SshTargetView;

    open spec fn view(&self) -> SshTargetView {
        SshTargetView { user: self.user@, host: self.host@, port: self.port }
    }
}

/// Why the options cannot be followed.
#[derive(Debug, Clone, Copy, PartialEq, Eq, Structural)]
pub enum CliError {
    /// The target is not of the form `user@host[:port]`.
    TargetForm,
    /// The target names a port that is no port.
    InvalidPort(text::PortFault),
    /// There is no home directory to look for known_hosts in.
    NoHome,
}

impl CliError {
    /// The text of the error.
    pub open spec fn text(self) -> Seq<char> {
        match self {
            CliError::TargetForm => "SSH target must be `user@host[:port]`"@,
            CliError::InvalidPort(_) => "invalid SSH port"@,
            CliError::NoHome => "could not locate home directory"@,
        }
    }

    /// The text of the error.
    pub fn message(&self) -> (message: String)
        ensures
            message@ == self.text(),
    {
        let text: &str = match self {
            CliError::TargetForm => "SSH target must be `user@host[:port]`",
            CliError::InvalidPort(_) => "invalid SSH port",
            CliError::NoHome => "could not locate home directory",
        };
        text.to_owned()
    }

    /// The text of what lies behind the error, if anything does.
    pub open spec fn cause_text(self) -> Option<Seq<char>> {
        match self {
            CliError::InvalidPort(fault) => Some(fault.text()),
            _ => None,
        }
    }

    /// The text of what lies behind the error, if anything does.
    pub fn cause(&self) -> (cause: Option<String>)
        ensures
            text::optional_text(cause) == self.cause_text(),
    {
        match self {
            CliError::InvalidPort(fault) => Some(fault.message()),
            _ => None,
        }
    }
}

/// Whether `rest` is one pair of brackets around a host with two colons or more,
/// as an IPv6 address has, and nothing behind it.
pub open spec fn all_in_brackets(rest: Seq<char>) -> bool {
    &&& rest.len() > 1
    &&& rest[0] == '['
    &&& rest[1] != '['
    &&& rest.index_of_first(']') == Some(rest.len() - 1)
    &&& rest.index_of_last(':') matches Some(colon)
    &&& rest.take(colon).contains(':')
}

/// Whether the last colon of `rest`, which is not all in brackets, sets off a
/// port: what stands before it has no colon of its own, or an opening bracket
/// in front.
pub open spec fn sets_off_port(rest: Seq<char>, colon: int) -> bool {
    !rest.take(colon).contains(':') || rest[0] == '['
}

/// A host without the brackets around it.
pub open spec fn unbracketed(host: Seq<char>) -> Seq<char> {
    text::trim_end(text::trim_start(host, '['), ']', ']')
}

/// The host and port of `host[:port]`. A host with two colons or more stands in
/// brackets if a port follows, and may if none does.
pub open spec fn endpoint(rest: Seq<char>) -> Result<(Seq<char>, u16), CliError> {
    if all_in_brackets(rest) {
        Ok((unbracketed(rest), DEFAULT_SSH_PORT))
    } else {
        match rest.index_of_last(':') {
            Some(colon) if sets_off_port(rest, colon) => {
                let port_text = rest.skip(colon + 1);
                match text::port_value(port_text) {
                    Some(port) => Ok((unbracketed(rest.take(colon)), port)),
                    None => Err(CliError::InvalidPort(text::port_fault(port_text))),
                }
            },
            _ => Ok((rest, DEFAULT_SSH_PORT)),
        }
    }
}

/// The account that `user@host[:port]` names.
pub open spec fn ssh_target(target: Seq<char>) -> Result<SshTargetView, CliError> {
    match target.index_of_first('@') {
        None => Err(CliError::TargetForm),
        Some(at) => match endpoint(target.skip(at + 1)) {
            Err(e) => Err(e),
            Ok((host, port)) => if at == 0 || host.len() == 0 {
                Err(CliError::TargetForm)
            } else {
                Ok(SshTargetView { user: target.take(at), host, port })
            },
        },
    }
}

/// The `known_hosts` file of the user whose home directory is `home`.
pub open spec fn known_hosts_under(home: Seq<Seq<u8>>) -> Seq<Seq<u8>> {
    home.push(vstd::utf8::encode_utf8(".ssh"@)).push(vstd::utf8::encode_utf8("known_hosts"@))
}

fn unbracket(host: &str) -> (inner: String)
    ensures
        inner@ == unbracketed(host@),
{
    text::trim_end_chars(text::trim_start_char(host, '['), ']', ']').to_owned()
}

fn parse_endpoint(rest: &str) -> (r: Result<(String, u16), CliError>)
    ensures
        match r {
            Ok((host, port)) => endpoint(rest@) == Ok::<(Seq<char>, u16), CliError>((host@, port)),
            Err(e) => endpoint(rest@) == Err::<(Seq<char>, u16), CliError>(e),
        },
{
    let n: usize = rest.unicode_len();
    proof {
        rest@.index_of_last_ensures(':');
    }
    if let Some(colon) = text::rfind_char(rest, ':') {
        let h: &str = rest.substring_char(0, colon);
        assert(h@ =~= rest@.take(colon as int));
        proof {
            h@.index_of_first_ensures(':');
            rest@.index_of_first_ensures(']');
        }
        let one_colon: bool = text::find_char(h, ':').is_none();
        let opened: bool = rest.get_char(0) == '[';
        let closed_at_end: bool = match text::find_char(rest, ']') {
            Some(end) => end == n - 1,
            None => false,
        };
        if opened && closed_at_end && !one_colon && rest.get_char(1) != '[' {
            return Ok((unbracket(rest), DEFAULT_SSH_PORT));
        }
        if one_colon || opened {
            let p: &str = rest.substring_char(colon + 1, n);
            assert(p@ =~= rest@.skip(colon + 1));
            return match text::parse_port(p) {
                Ok(port) => Ok((unbracket(h), port)),
                Err(fault) => Err(CliError::InvalidPort(fault)),
            };
        }
    }
    Ok((rest.to_owned(), DEFAULT_SSH_PORT))
}

impl Args {
    /// The options of a run that is given a target and nothing else.
    pub fn new(target: String) -> (args: Args)
        ensures
            args.target@ == target@,
            args.listen@ == DEFAULT_LISTEN@,
            args.identity@.len() == 0,
            !args.passphrase_stdin,
            !args.agent,
            !args.password,
            !args.password_stdin,
            args.known_hosts is None,
            !args.accept_new_host_keys,
            args.keepalive_interval == DEFAULT_KEEPALIVE_INTERVAL,
            args.keepalive_max == DEFAULT_KEEPALIVE_MAX,
            !args.no_keepalive,
            args.verbose == 0,
    {
        Args {
            target,
            listen: DEFAULT_LISTEN.to_owned(),
            identity: Vec::new(),
            passphrase_stdin: false,
            agent: false,
            password: false,
            password_stdin: false,
            known_hosts: None,
            accept_new_host_keys: false,
            keepalive_interval: DEFAULT_KEEPALIVE_INTERVAL,
            keepalive_max: DEFAULT_KEEPALIVE_MAX,
            no_keepalive: false,
            verbose: 0,
        }
    }

    /// Reads the target.
    pub fn parse_target(&self) -> (target: Result<SshTarget, CliError>)
        ensures
            match target {
                Ok(t) => ssh_target(self.target@) == Ok::<SshTargetView, CliError>(t@),
                Err(e) => ssh_target(self.target@) == Err::<SshTargetView, CliError>(e),
            },
    {
        let text: &str = self.target.as_str();
        let n: usize = text.unicode_len();
        proof {
            text@.index_of_first_ensures('@');
        }
        let at: usize = match text::find_char(text, '@') {
            Some(at) => at,
            None => return Err(CliError::TargetForm),
        };
        let user: &str = text.substring_char(0, at);
        assert(user@ =~= text@.take(at as int));
        let rest: &str = text.substring_char(at + 1, n);
        assert(rest@ =~= text@.skip(at + 1));
        let (host, port) = match parse_endpoint(rest) {
            Ok(endpoint) => endpoint,
            Err(e) => return Err(e),
        };
        if at == 0 || host.as_str().is_empty() {
            return Err(CliError::TargetForm);
        }
        Ok(SshTarget { user: user.to_owned(), host, port })
    }

    /// The known_hosts file: the one that was named, or else the one under
    /// `home`.
    pub fn known_hosts_in(&self, home: Option<PathBuf>) -> (file: Result<PathBuf, CliError>)
        ensures
            match (self.known_hosts, home) {
                (Some(named), _) => file == Ok::<PathBuf, CliError>(named),
                (None, Some(dir)) => {
                    &&& file is Ok
                    &&& files::path_components(file->Ok_0) == known_hosts_under(
                        files::path_components(dir),
                    )
                    &&& files::path_components(file->Ok_0) == files::path_components(dir).push(
                        vstd::utf8::encode_utf8(".ssh"@),
                    ).push(vstd::utf8::encode_utf8("known_hosts"@))
                },
                (None, None) => file == Err::<PathBuf, CliError>(CliError::NoHome),
            },
    {
        if let Some(named) = &self.known_hosts {
            return Ok(named.clone());
        }
        match home {
            Some(dir) => {
                proof {
                    reveal_strlit(".ssh");
                    reveal_strlit("known_hosts");
                    assert(".ssh"@.len() == 4);
                    assert("known_hosts"@.len() == 11);
                }
                Ok(files::join_component(&files::join_component(&dir, ".ssh"), "known_hosts"))
            },
            None => Err(CliError::NoHome),
        }
    }

    /// The known_hosts file: the one that was named, or else the one in the
    /// home directory of the user.
    pub fn known_hosts_path(&self) -> (file: Result<PathBuf, CliError>)
        ensures
            match self.known_hosts {
                Some(named) => file == Ok::<PathBuf, CliError>(named),
                None => match file {
                    Ok(p) => exists|home: PathBuf|
                        files::path_components(p) == known_hosts_under(
                            #[trigger] files::path_components(home),
                        ),
                    Err(e) => e == CliError::NoHome,
                },
            },
            self.known_hosts is None ==> exists|home: Option<PathBuf>|
                #[trigger] files::home_answers(home) && match home {
                    Some(dir) => file is Ok && files::path_components(file->Ok_0)
                        == files::path_components(dir).push(vstd::utf8::encode_utf8(".ssh"@)).push(
                        vstd::utf8::encode_utf8("known_hosts"@),
                    ),
                    None => file == Err::<PathBuf, CliError>(CliError::NoHome),
                },
    {
        if let Some(named) = &self.known_hosts {
            return Ok(named.clone());
        }
        let home = files::ask(files::home_dir);
        proof {
            files::law_home_answers(home);
        }
        self.known_hosts_in(home)
    }

    /// The keepalive that was asked for, if any.
    pub open spec fn wanted_keepalive(self) -> Option<Keepalive> {
        if self.no_keepalive || self.keepalive_interval == 0 {
            None
        } else {
            Some(
                Keepalive {
                    interval_secs: self.keepalive_interval,
                    max_missed: self.keepalive_max,
                },
            )
        }
    }

    /// The keepalive that was asked for, if any.
    pub fn keepalive(&self) -> (keepalive: Option<Keepalive>)
        ensures
            keepalive == self.wanted_keepalive(),
            keepalive is None <==> self.no_keepalive || self.keepalive_interval == 0,
            keepalive matches Some(ka) ==> {
                &&& ka.interval_secs == self.keepalive_interval
                &&& ka.max_missed == self.keepalive_max
            },
    {
        if self.no_keepalive || self.keepalive_interval == 0 {
            None
        } else {
            Some(
                Keepalive {
                    interval_secs: self.keepalive_interval,
                    max_missed: self.keepalive_max,
                },
            )
        }
    }

    /// The log level that `-v` asks for: `-v` info, `-vv` debug, `-vvv` trace.
    pub open spec fn level(verbose: u8) -> Seq<char> {
        if verbose == 0 {
            "warn"@
        } else if verbose == 1 {
            "info"@
        } else if verbose == 2 {
            "debug"@
        } else {
            "trace"@
        }
    }

    /// The log level that the options ask for.
    pub fn log_level(&self) -> (level: &'static str)
        ensures
            level@ == Self::level(self.verbose),
            self.verbose == 0 ==> level@ == "warn"@,
            self.verbose == 1 ==> level@ == "info"@,
            self.verbose == 2 ==> level@ == "debug"@,
            self.verbose >= 3 ==> level@ == "trace"@,
    {
        match self.verbose {
            0 => "warn",
            1 => "info",
            2 => "debug",
            _ => "trace",
        }
    }

    /// The log filter that holds unless the environment sets one.
    pub fn log_filter(&self) -> (filter: String)
        ensures
            filter@ == "sshttp="@ + Self::level(self.verbose),
            self.verbose == 0 ==> filter@ == "sshttp="@ + "warn"@,
            self.verbose == 1 ==> filter@ == "sshttp="@ + "info"@,
            self.verbose == 2 ==> filter@ == "sshttp="@ + "debug"@,
            self.verbose >= 3 ==> filter@ == "sshttp="@ + "trace"@,
    {
        let mut filter = "sshttp=".to_owned();
        filter.append(self.log_level());
        filter
    }
}

proof fn lemma_target_split(user: Seq<char>, rest: Seq<char>)
    requires
        !user.contains('@'),
    ensures
        ({
            let target = user + seq!['@'] + rest;
            &&& target.index_of_first('@') == Some(user.len() as int)
            &&& target.take(user.len() as int) == user
            &&& target.skip(user.len() as int + 1) == rest
        }),
{
    let target = user + seq!['@'] + rest;
    assert forall|j: int| 0 <= j < user.len() implies target[j] != '@' by {
        assert(target[j] == user[j]);
        assert(user.contains(user[j]));
    }
    text::lemma_index_of_first(target, '@', user.len() as int);
    assert(target.take(user.len() as int) =~= user);
    assert(target.skip(user.len() as int + 1) =~= rest);
}

proof fn lemma_last_colon(before: Seq<char>, port: u16)
    ensures
        ({
            let rest = before + seq![':'] + text::decimal(port as nat);
            &&& rest.index_of_last(':') == Some(before.len() as int)
            &&& !all_in_brackets(rest)
            &&& rest.take(before.len() as int) == before
            &&& rest.skip(before.len() as int + 1) == text::decimal(port as nat)
        }),
{
    let digits = text::decimal(port as nat);
    let rest = before + seq![':'] + digits;
    text::lemma_decimal_value(port as nat);
    assert forall|j: int| before.len() < j < rest.len() implies rest[j] != ':' by {
        assert('0' <= digits[j - before.len() - 1] <= '9');
    }
    text::lemma_index_of_last(rest, ':', before.len() as int);
    assert(rest.last() == digits.last());
    assert('0' <= digits[digits.len() - 1] <= '9');
    rest.index_of_first_ensures(']');
    assert(rest.take(before.len() as int) =~= before);
    assert(rest.skip(before.len() as int + 1) =~= digits);
}

proof fn lemma_unbracketed(host: Seq<char>)
    requires
        host.len() > 0,
        host[0] != '[',
        host.last() != ']',
    ensures
        unbracketed(seq!['['] + host + seq![']']) == host,
{
    let inner = seq!['['] + host + seq![']'];
    let opened = host + seq![']'];
    assert(inner.drop_first() =~= opened);
    assert(text::trim_start(opened, '[') == opened);
    assert(text::trim_start(inner, '[') == opened);
    assert(opened.drop_last() =~= host);
    assert(text::trim_end(host, ']', ']') == host);
    assert(text::trim_end(opened, ']', ']') == host);
}

/// `user@host` names the default port.
pub proof fn law_target_default_port(user: Seq<char>, host: Seq<char>)
    requires
        user.len() > 0,
        !user.contains('@'),
        host.len() > 0,
        !host.contains(':'),
    ensures
        ssh_target(user + seq!['@'] + host) == Ok::<SshTargetView, CliError>(
            SshTargetView { user, host, port: 22 },
        ),
{
    lemma_target_split(user, host);
    host.index_of_last_ensures(':');
}

/// `user@host:port` names that port.
pub proof fn law_target_explicit_port(user: Seq<char>, host: Seq<char>, port: u16)
    requires
        user.len() > 0,
        !user.contains('@'),
        host.len() > 0,
        !host.contains(':'),
        host[0] != '[',
        host.last() != ']',
    ensures
        ssh_target(user + seq!['@'] + (host + seq![':'] + text::decimal(port as nat))) == Ok::<
            SshTargetView,
            CliError,
        >(SshTargetView { user, host, port }),
{
    lemma_target_split(user, host + seq![':'] + text::decimal(port as nat));
    lemma_last_colon(host, port);
    text::lemma_port_of_decimal(port);
}

/// `user@[host]:port` names a host that may hold colons, without the brackets.
pub proof fn law_target_bracketed(user: Seq<char>, host: Seq<char>, port: u16)
    requires
        user.len() > 0,
        !user.contains('@'),
        host.len() > 0,
        host[0] != '[',
        host.last() != ']',
    ensures
        ssh_target(
            user + seq!['@'] + (seq!['['] + host + seq![']'] + seq![':'] + text::decimal(
                port as nat,
            )),
        ) == Ok::<SshTargetView, CliError>(SshTargetView { user, host, port }),
{
    let inner = seq!['['] + host + seq![']'];
    lemma_target_split(user, inner + seq![':'] + text::decimal(port as nat));
    lemma_last_colon(inner, port);
    lemma_unbracketed(host);
    text::lemma_port_of_decimal(port);
    assert((inner + seq![':'] + text::decimal(port as nat))[0] == '[');
}

/// `user@[host]` names the default port of a host that holds two colons or more,
/// without the brackets.
pub proof fn law_target_bracketed_default_port(user: Seq<char>, host: Seq<char>, i: int, j: int)
    requires
        user.len() > 0,
        !user.contains('@'),
        0 <= i < j < host.len(),
        host[i] == ':',
        host[j] == ':',
        host[0] != '[',
        !host.contains(']'),
    ensures
        ssh_target(user + seq!['@'] + (seq!['['] + host + seq![']'])) == Ok::<
            SshTargetView,
            CliError,
        >(SshTargetView { user, host, port: 22 }),
{
    let inner = seq!['['] + host + seq![']'];
    lemma_target_split(user, inner);
    assert(host.contains(host.last()));
    lemma_unbracketed(host);
    assert forall|k: int| 0 <= k < inner.len() - 1 implies inner[k] != ']' by {
        if k > 0 {
            assert(inner[k] == host[k - 1]);
            assert(host.contains(host[k - 1]));
        }
    }
    text::lemma_index_of_first(inner, ']', inner.len() - 1);
    inner.index_of_last_ensures(':');
    assert(inner[j + 1] == ':');
    assert(inner.contains(':'));
    let colon = inner.index_of_last(':')->0;
    assert(inner.take(colon)[i + 1] == ':');
    assert(inner.take(colon).contains(':'));
}

/// `user@host:port` is refused if `port` is no port number, whatever brackets
/// stand in either.
pub proof fn law_target_bad_port(user: Seq<char>, host: Seq<char>, port: Seq<char>)
    requires
        !user.contains('@'),
        !host.contains(':'),
        !port.contains(':'),
        text::port_value(port) is None,
    ensures
        ssh_target(user + seq!['@'] + (host + seq![':'] + port)) == Err::<SshTargetView, CliError>(
            CliError::InvalidPort(text::port_fault(port)),
        ),
{
    let rest = host + seq![':'] + port;
    lemma_target_split(user, rest);
    assert forall|k: int| host.len() < k < rest.len() implies rest[k] != ':' by {
        assert(rest[k] == port[k - host.len() - 1]);
        assert(port.contains(port[k - host.len() - 1]));
    }
    text::lemma_index_of_last(rest, ':', host.len() as int);
    assert(rest.take(host.len() as int) =~= host);
    assert(rest.skip(host.len() as int + 1) =~= port);
}

/// A host in front of the port that opens a bracket, and closes it or not, is
/// refused if what follows the last colon is no port number, unless the whole
/// is one pair of brackets around a host with two colons or more.
pub proof fn law_target_bad_brackets(user: Seq<char>, before: Seq<char>, port: Seq<char>)
    requires
        !user.contains('@'),
        before.len() > 0,
        before[0] == '[',
        !port.contains(':'),
        text::port_value(port) is None,
        ({
            let rest = before + seq![':'] + port;
            ||| rest[1] == '['
            ||| rest.index_of_first(']') != Some(rest.len() - 1)
            ||| !before.contains(':')
        }),
    ensures
        ssh_target(user + seq!['@'] + (before + seq![':'] + port)) == Err::<
            SshTargetView,
            CliError,
        >(CliError::InvalidPort(text::port_fault(port))),
{
    let rest = before + seq![':'] + port;
    lemma_target_split(user, rest);
    assert forall|k: int| before.len() < k < rest.len() implies rest[k] != ':' by {
        assert(rest[k] == port[k - before.len() - 1]);
        assert(port.contains(port[k - before.len() - 1]));
    }
    text::lemma_index_of_last(rest, ':', before.len() as int);
    assert(rest[0] == before[0]);
    assert(rest.take(before.len() as int) =~= before);
    assert(rest.skip(before.len() as int + 1) =~= port);
}

/// A target without a host is refused, with or without a port, and with or
/// without brackets around the nothing.
pub proof fn law_target_needs_a_host(user: Seq<char>, port: u16)
    requires
        !user.contains('@'),
    ensures
        ssh_target(user + seq!['@'] + Seq::<char>::empty()) == Err::<SshTargetView, CliError>(
            CliError::TargetForm,
        ),
        ssh_target(
            user + seq!['@'] + (Seq::<char>::empty() + seq![':'] + text::decimal(port as nat)),
        ) == Err::<SshTargetView, CliError>(CliError::TargetForm),
        ssh_target(
            user + seq!['@'] + (seq!['[', ']'] + seq![':'] + text::decimal(port as nat)),
        ) == Err::<SshTargetView, CliError>(CliError::TargetForm),
{
    let nothing = Seq::<char>::empty();
    let brackets = seq!['[', ']'];
    let closing = seq![']'];
    lemma_target_split(user, nothing);
    nothing.index_of_last_ensures(':');
    lemma_target_split(user, nothing + seq![':'] + text::decimal(port as nat));
    lemma_last_colon(nothing, port);
    lemma_target_split(user, brackets + seq![':'] + text::decimal(port as nat));
    lemma_last_colon(brackets, port);
    text::lemma_port_of_decimal(port);
    assert(brackets.drop_first() =~= closing);
    assert(text::trim_start(closing, '[') == closing);
    assert(text::trim_start(brackets, '[') == closing);
    assert(closing.drop_last() =~= nothing);
    assert(text::trim_end(nothing, ']', ']') == nothing);
    assert(text::trim_end(closing, ']', ']') == nothing);
    assert(text::trim_start(nothing, '[') == nothing);
}

/// `user@host` with an IPv6 host that is not in brackets names the default
/// port: no part of the host is taken for a port.
pub proof fn law_target_bare_ipv6(user: Seq<char>, host: Seq<char>, i: int, j: int)
    requires
        user.len() > 0,
        !user.contains('@'),
        0 <= i < j < host.len(),
        host[i] == ':',
        host[j] == ':',
        host[0] != '[',
    ensures
        ssh_target(user + seq!['@'] + host) == Ok::<SshTargetView, CliError>(
            SshTargetView { user, host, port: 22 },
        ),
{
    lemma_target_split(user, host);
    host.index_of_last_ensures(':');
    let colon = host.index_of_last(':')->0;
    assert(host.contains(':'));
    assert(colon >= j);
    assert(host.take(colon)[i] == ':');
    assert(host.take(colon).contains(':'));
}

/// A target that is understood has a user and a host, and is the user, an
/// `@`, and something behind it. Without an `@`, or with nothing before the
/// first, there is no target.
pub proof fn law_target_shape(target: Seq<char>)
    ensures
        match ssh_target(target) {
            Ok(t) => {
                &&& t.user.len() > 0
                &&& t.host.len() > 0
                &&& !t.user.contains('@')
                &&& t.user.len() < target.len()
                &&& target.take(t.user.len() as int) == t.user
                &&& target[t.user.len() as int] == '@'
            },
            Err(_) => true,
        },
        !target.contains('@') ==> ssh_target(target) == Err::<SshTargetView, CliError>(
            CliError::TargetForm,
        ),
        target.len() > 0 && target[0] == '@' ==> ssh_target(target) is Err,
{
    target.index_of_first_ensures('@');
    if target.len() > 0 && target[0] == '@' {
        assert(target.contains('@'));
    }
    if let Ok(t) = ssh_target(target) {
        let at = target.index_of_first('@')->0;
        assert(t.user =~= target.take(at));
    }
}

/// An account is its user, its host and its port.
pub proof fn law_target_view(target: SshTarget)
    ensures
        target@ == (SshTargetView {
            user: target.user@,
            host: target.host@,
            port: target.port,
        }),
{
}

/// The keepalive is off if the flag says so or the interval is zero, and is
/// otherwise what the two options say.
pub proof fn law_wanted_keepalive(args: Args)
    ensures
        args.no_keepalive || args.keepalive_interval == 0 ==> args.wanted_keepalive() is None,
        !args.no_keepalive && args.keepalive_interval > 0 ==> {
            &&& args.wanted_keepalive() matches Some(ka)
            &&& ka.interval_secs == args.keepalive_interval
            &&& ka.max_missed == args.keepalive_max
        },
{
}

/// The file named `known_hosts` in the directory named `.ssh`.
pub proof fn law_known_hosts_under(home: Seq<Seq<u8>>)
    ensures
        known_hosts_under(home).len() == home.len() + 2,
        known_hosts_under(home).take(home.len() as int) == home,
        known_hosts_under(home)[home.len() as int] == vstd::utf8::encode_utf8(".ssh"@),
        known_hosts_under(home).last() == vstd::utf8::encode_utf8("known_hosts"@),
{
    assert(known_hosts_under(home).take(home.len() as int) =~= home);
}

proof fn lemma_port_text(before: Seq<char>, port: Seq<char>)
    requires
        !port.contains(':'),
        text::port_value(port) is Some,
    ensures
        ({
            let rest = before + seq![':'] + port;
            &&& rest.index_of_last(':') == Some(before.len() as int)
            &&& rest.take(before.len() as int) == before
            &&& rest.skip(before.len() as int + 1) == port
            &&& !all_in_brackets(rest)
        }),
{
    let rest = before + seq![':'] + port;
    assert forall|k: int| before.len() < k < rest.len() implies rest[k] != ':' by {
        assert(rest[k] == port[k - before.len() - 1]);
        assert(port.contains(port[k - before.len() - 1]));
    }
    text::lemma_index_of_last(rest, ':', before.len() as int);
    assert(rest.take(before.len() as int) =~= before);
    assert(rest.skip(before.len() as int + 1) =~= port);
    text::law_port_is_digits(port);
    let digits = if port[0] == '+' {
        port.skip(1)
    } else {
        port
    };
    assert('0' <= digits[digits.len() - 1] <= '9');
    assert(rest.last() == digits.last());
    rest.index_of_first_ensures(']');
}

proof fn lemma_before_port(user: Seq<char>, before: Seq<char>, port: Seq<char>)
    requires
        !user.contains('@'),
        before.len() > 0,
        before[0] == '[' || !before.contains(':'),
        !port.contains(':'),
        text::port_value(port) is Some,
    ensures
        ssh_target(user + seq!['@'] + (before + seq![':'] + port)) == (if user.len() > 0
            && unbracketed(before).len() > 0 {
            Ok::<SshTargetView, CliError>(
                SshTargetView { user, host: unbracketed(before), port: text::port_value(port)->0 },
            )
        } else {
            Err(CliError::TargetForm)
        }),
{
    let rest = before + seq![':'] + port;
    lemma_target_split(user, rest);
    lemma_port_text(before, port);
    assert(rest[0] == before[0]);
}

proof fn lemma_strip(opening: nat, host: Seq<char>, closing: nat)
    requires
        host.len() > 0,
        host[0] != '[',
        host.last() != ']',
    ensures
        ({
            let before = Seq::new(opening, |i: int| '[') + host + Seq::new(closing, |i: int| ']');
            &&& unbracketed(before) == host
            &&& opening > 0 ==> before[0] == '['
            &&& before.contains(':') ==> host.contains(':')
        }),
{
    let closed = host + Seq::new(closing, |i: int| ']');
    let before = Seq::new(opening, |i: int| '[') + host + Seq::new(closing, |i: int| ']');
    text::lemma_trim_start(before, '[', opening as int);
    assert(before.skip(opening as int) =~= closed);
    text::lemma_trim_end(closed, ']', ']', host.len() as int);
    assert(closed.take(host.len() as int) =~= host);
    if before.contains(':') {
        let i = choose|i: int| 0 <= i < before.len() && before[i] == ':';
        assert(opening <= i < opening + host.len());
        assert(host[i - opening] == ':');
    }
}

/// Brackets around a host in front of a port are taken off, however many there
/// are on either side; the host inside is left alone, and so are the user and
/// the port. There is no target without a user.
pub proof fn law_target_strips_brackets(
    user: Seq<char>,
    opening: nat,
    host: Seq<char>,
    closing: nat,
    port: Seq<char>,
)
    requires
        !user.contains('@'),
        host.len() > 0,
        host[0] != '[',
        host.last() != ']',
        opening > 0 || !host.contains(':'),
        !port.contains(':'),
        text::port_value(port) is Some,
    ensures
        ssh_target(
            user + seq!['@'] + (Seq::new(opening, |i: int| '[') + host + Seq::new(
                closing,
                |i: int| ']',
            ) + seq![':'] + port),
        ) == (if user.len() > 0 {
            Ok::<SshTargetView, CliError>(
                SshTargetView { user, host, port: text::port_value(port)->0 },
            )
        } else {
            Err(CliError::TargetForm)
        }),
{
    let before = Seq::new(opening, |i: int| '[') + host + Seq::new(closing, |i: int| ']');
    lemma_strip(opening, host, closing);
    lemma_before_port(user, before, port);
}

/// Nothing but brackets in front of a port is no host.
pub proof fn law_target_brackets_are_no_host(
    user: Seq<char>,
    opening: nat,
    closing: nat,
    port: Seq<char>,
)
    requires
        !user.contains('@'),
        !port.contains(':'),
        text::port_value(port) is Some,
    ensures
        ssh_target(
            user + seq!['@'] + (Seq::new(opening, |i: int| '[') + Seq::new(closing, |i: int| ']')
                + seq![':'] + port),
        ) == Err::<SshTargetView, CliError>(CliError::TargetForm),
{
    let closed = Seq::new(closing, |i: int| ']');
    let before = Seq::new(opening, |i: int| '[') + closed;
    lemma_target_split(user, before + seq![':'] + port);
    lemma_port_text(before, port);
    text::lemma_trim_start(before, '[', opening as int);
    assert(before.skip(opening as int) =~= closed);
    text::lemma_trim_end(closed, ']', ']', 0);
    assert(closed.take(0) =~= Seq::<char>::empty());
}

/// A target without a user is refused as what it is, unless its port is at
/// fault: then it is refused for the port, as it would be with a user.
pub proof fn law_target_needs_a_user(user: Seq<char>, rest: Seq<char>)
    requires
        user.len() > 0,
        !user.contains('@'),
    ensures
        ssh_target(Seq::<char>::empty() + seq!['@'] + rest) == (match ssh_target(
            user + seq!['@'] + rest,
        ) {
            Err(CliError::InvalidPort(fault)) => Err::<SshTargetView, CliError>(
                CliError::InvalidPort(fault),
            ),
            _ => Err(CliError::TargetForm),
        }),
{
    lemma_target_split(user, rest);
    lemma_target_split(Seq::empty(), rest);
}

/// Whatever `known_hosts_path` gives, and whatever the other options are: a file
/// that was named is the one that was named, and otherwise it is the file
/// `known_hosts` in the directory `.ssh` of the very directory that the lookup
/// of the home directory answered with, or the lack of it if it answered with
/// none.
pub proof fn law_known_hosts_path(args: Args, file: Result<PathBuf, CliError>)
    requires
        call_ensures(Args::known_hosts_path, (&args,), file),
    ensures
        args.known_hosts matches Some(named) ==> file == Ok::<PathBuf, CliError>(named),
        args.known_hosts is None ==> exists|home: Option<PathBuf>|
            #[trigger] files::home_answers(home) && match (home, file) {
                (Some(dir), Ok(p)) => {
                    let below = files::path_components(p);
                    let n = files::path_components(dir).len() as int;
                    &&& below.len() == n + 2
                    &&& below.take(n) == files::path_components(dir)
                    &&& below[n] == vstd::utf8::encode_utf8(".ssh"@)
                    &&& below[n + 1] == vstd::utf8::encode_utf8("known_hosts"@)
                },
                (None, Err(e)) => e == CliError::NoHome,
                _ => false,
            },
{
    if args.known_hosts is None {
        let home = choose|home: Option<PathBuf>| #[trigger]
            files::home_answers(home) && match home {
                Some(dir) => file is Ok && files::path_components(file->Ok_0)
                    == files::path_components(dir).push(vstd::utf8::encode_utf8(".ssh"@)).push(
                    vstd::utf8::encode_utf8("known_hosts"@),
                ),
                None => file == Err::<PathBuf, CliError>(CliError::NoHome),
            };
        assert(files::home_answers(home));
        if let Some(dir) = home {
            let n = files::path_components(dir).len() as int;
            assert(files::path_components(file->Ok_0).take(n) =~= files::path_components(dir));
        }
    }
}

} // verus!
