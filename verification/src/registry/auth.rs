//! Credentials for registries, and the challenges that ask for them.
use crate::base64::{decode, encoded, encoding_loses_nothing};
use crate::text::{after_prefix, begins, chars_of, cut, ends, find_from, find_text, glue};
use crate::text::{glue3, glue5, index_from, lemma_index_from_unique, occurs_at, same_text};
use crate::text::{split_once, strip_prefix, text_index, text_of, texts_are_cut_at_the_first};
use crate::text::utf8_text;
use crate::text_map::TextMap;
use vstd::prelude::*;
use vstd::utf8::encode_utf8;

verus! {

/// A user name and a password.
#[derive(Debug)]
pub struct Credentials {
    pub username: String,
    pub password: String,
}

impl DeepView for Credentials {
    type V = (Seq<char>, Seq<char>);

    open spec fn deep_view(&self) -> (Seq<char>, Seq<char>) {
        (self.username@, self.password@)
    }
}

/// The credentials that are known for registries.
pub struct RegistryAuth {
    credentials: TextMap<Credentials>,
}

impl View for RegistryAuth {
    type V = Map<Seq<char>, (Seq<char>, Seq<char>)>;

    closed spec fn view(&self) -> Map<Seq<char>, (Seq<char>, Seq<char>)> {
        self.credentials.deep_view()
    }
}

impl RegistryAuth {
    /// No credentials.
    pub fn new() -> (auth: Self)
        ensures
            auth@ == Map::<Seq<char>, (Seq<char>, Seq<char>)>::empty(),
    {
        let auth = RegistryAuth { credentials: TextMap::new() };
        assert(auth@ =~= Map::empty());
        auth
    }

    /// Sets the credentials of a registry.
    pub fn set_credentials(&mut self, registry: &str, username: &str, password: &str)
        ensures
            final(self)@ == old(self)@.insert(registry@, (username@, password@)),
    {
        let ghost before = self@;
        self.credentials.insert(
            registry.to_string(),
            Credentials { username: username.to_string(), password: password.to_string() },
        );
        assert(self@ =~= before.insert(registry@, (username@, password@)));
    }

    /// The credentials of a registry.
    pub fn credentials(&self, registry: &str) -> (found: Option<&Credentials>)
        ensures
            match found {
                Some(pair) => self@.contains_key(registry@) && pair.deep_view() == self@[registry@],
                None => !self@.contains_key(registry@),
            },
    {
        self.credentials.get(registry)
    }
}

// ---------------------------------------------------------------------------
// What Docker keeps
// ---------------------------------------------------------------------------
/// The login of a server as Docker keeps it.
#[derive(Debug)]
pub struct DockerLogin {
    /// The server, by its address.
    pub server: String,
    /// User name and password with a colon between them, encoded.
    pub auth: Option<String>,
    pub username: Option<String>,
    pub password: Option<String>,
}

/// A [`DockerLogin`] as a mathematical value.
#[verifier::ext_equal]
pub struct LoginModel {
    pub server: Seq<char>,
    pub auth: Option<Seq<char>>,
    pub username: Option<Seq<char>>,
    pub password: Option<Seq<char>>,
}

impl DeepView for DockerLogin {
    type V = LoginModel;

    open spec fn deep_view(&self) -> LoginModel {
        LoginModel {
            server: self.server@,
            auth: self.auth.deep_view(),
            username: self.username.deep_view(),
            password: self.password.deep_view(),
        }
    }
}

/// The text is what an encoded login stands for.
pub open spec fn stands_for(auth: Seq<char>, text: Seq<char>) -> bool {
    encoded(encode_utf8(text)) == auth
}

/// The user name and the password of an encoded login: before and after the first colon
/// of the text that it stands for.
pub open spec fn login_in(auth: Seq<char>) -> Option<(Seq<char>, Seq<char>)> {
    if exists|text: Seq<char>| stands_for(auth, text) {
        cut(choose|text: Seq<char>| stands_for(auth, text), ':')
    } else {
        None
    }
}

/// An encoded login stands for one text at most, and it gives back what was encoded: a
/// user name without a colon, and a password.
pub proof fn logins_read_back(username: Seq<char>, password: Seq<char>)
    requires
        !username.contains(':'),
    ensures
        login_in(encoded(encode_utf8(username + ":"@ + password))) == Some((username, password)),
{
    reveal_strlit(":");
    let text = username + ":"@ + password;
    let auth = encoded(encode_utf8(text));
    assert(stands_for(auth, text));
    let found = choose|found: Seq<char>| stands_for(auth, found);
    lemma_one_text(auth, text, found);
    assert forall|i: int| 0 <= i < username.len() implies text[i] != ':' by {
        assert(username.contains(username[i]));
    }
    assert(text[username.len() as int] == ':');
    lemma_index_from_unique(text, ':', 0, username.len() as int);
    assert(text.take(username.len() as int) =~= username);
    assert(text.skip(username.len() as int + 1) =~= password);
}

proof fn lemma_one_text(auth: Seq<char>, one: Seq<char>, other: Seq<char>)
    requires
        stands_for(auth, one),
        stands_for(auth, other),
    ensures
        one == other,
{
    encoding_loses_nothing(encode_utf8(one), encode_utf8(other));
    vstd::utf8::encode_utf8_decode_utf8(one);
    vstd::utf8::encode_utf8_decode_utf8(other);
}

/// The user name and the password of an encoded login.
pub fn read_login(auth: &str) -> (login: Option<(String, String)>)
    ensures
        login.deep_view() == login_in(auth@),
{
    let bytes = match decode(auth) {
        Some(bytes) => bytes,
        None => {
            assert(forall|text: Seq<char>| !stands_for(auth@, text));
            return None;
        },
    };
    let ghost content = bytes@;
    match utf8_text(bytes) {
        Some(text) => {
            proof {
                assert(stands_for(auth@, text@));
                let found = choose|found: Seq<char>| stands_for(auth@, found);
                lemma_one_text(auth@, text@, found);
            }
            split_once(&text, ':')
        },
        None => {
            proof {
                assert forall|text: Seq<char>| !stands_for(auth@, text) by {
                    if stands_for(auth@, text) {
                        encoding_loses_nothing(encode_utf8(text), content);
                        vstd::utf8::encode_utf8_valid_utf8(text);
                    }
                }
            }
            None
        },
    }
}

/// The registry that a server's address stands for: its host, by the name that
/// references have for it.
pub open spec fn registry_of(server: Seq<char>) -> Seq<char> {
    let rest = match after_prefix(server, "https://"@) {
        Some(rest) => rest,
        None => match after_prefix(server, "http://"@) {
            Some(rest) => rest,
            None => server,
        },
    };
    let host = match cut(rest, '/') {
        Some((host, _)) => host,
        None => rest,
    };
    if host == "index.docker.io"@ || host == "registry-1.docker.io"@ {
        "docker.io"@
    } else {
        host
    }
}

/// The registry that a server's address stands for.
pub fn registry_name(server: &str) -> (name: String)
    ensures
        name@ == registry_of(server@),
{
    let rest = match strip_prefix(server, "https://") {
        Some(rest) => rest,
        None => match strip_prefix(server, "http://") {
            Some(rest) => rest,
            None => server.to_string(),
        },
    };
    let host = match split_once(&rest, '/') {
        Some((host, _)) => host,
        None => rest,
    };
    if same_text(&host, "index.docker.io") || same_text(&host, "registry-1.docker.io") {
        "docker.io".to_string()
    } else {
        host
    }
}

/// The credentials that a login gives: those that are encoded, or else the two fields.
pub open spec fn credentials_in(login: LoginModel) -> Option<(Seq<char>, Seq<char>)> {
    let encoded_login = match login.auth {
        Some(auth) => login_in(auth),
        None => None,
    };
    match (encoded_login, login.username, login.password) {
        (Some(pair), _, _) => Some(pair),
        (None, Some(username), Some(password)) => Some((username, password)),
        _ => None,
    }
}

/// The credentials after the first `count` logins: a later one counts.
pub open spec fn docker_credentials(logins: Seq<LoginModel>, count: int) -> Map<
    Seq<char>,
    (Seq<char>, Seq<char>),
>
    decreases count,
{
    if count <= 0 {
        Map::empty()
    } else {
        let before = docker_credentials(logins, count - 1);
        match credentials_in(logins[count - 1]) {
            Some(pair) => before.insert(registry_of(logins[count - 1].server), pair),
            None => before,
        }
    }
}

/// The credentials that a login gives.
fn login_credentials(login: &DockerLogin) -> (pair: Option<(String, String)>)
    ensures
        pair.deep_view() == credentials_in(login.deep_view()),
{
    if let Some(auth) = &login.auth {
        if let Some(pair) = read_login(auth) {
            return Some(pair);
        }
    }
    match (&login.username, &login.password) {
        (Some(username), Some(password)) => Some((username.clone(), password.clone())),
        _ => None,
    }
}

impl RegistryAuth {
    /// The credentials that Docker keeps.
    pub fn from_docker(logins: &Vec<DockerLogin>) -> (auth: Self)
        ensures
            auth@ == docker_credentials(logins.deep_view(), logins@.len() as int),
    {
        let mut auth = RegistryAuth::new();
        let mut at: usize = 0;
        while at < logins.len()
            invariant
                at <= logins@.len(),
                auth@ == docker_credentials(logins.deep_view(), at as int),
            decreases logins@.len() - at,
        {
            let login = &logins[at];
            assert(logins.deep_view()[at as int] == login.deep_view());
            if let Some((username, password)) = login_credentials(login) {
                auth.set_credentials(&registry_name(&login.server), &username, &password);
            }
            at = at + 1;
        }
        auth
    }
}

// ---------------------------------------------------------------------------
// Challenges
// ---------------------------------------------------------------------------
/// A parameter of a challenge: what stands in quotes after the first `name=`.
pub open spec fn parameter(challenge: Seq<char>, name: Seq<char>) -> Option<Seq<char>> {
    let key = name + "=\""@;
    let from = text_index(challenge, key, 0) + key.len();
    let to = index_from(challenge, '"', from);
    if from <= to < challenge.len() {
        Some(challenge.subrange(from, to))
    } else {
        None
    }
}

/// A parameter of a challenge: what stands in quotes after the first `name=`.
pub fn challenge_parameter(challenge: &str, name: &str) -> (value: Option<String>)
    ensures
        value.deep_view() == parameter(challenge@, name@),
{
    proof {
        reveal_strlit("=\"");
    }
    let chars = chars_of(challenge);
    let key = chars_of(&glue(name, "=\""));
    let at = find_text(&chars, &key);
    if at >= chars.len() {
        return None;
    }
    let from = at + key.len();
    let to = find_from(&chars, '"', from);
    if to < chars.len() {
        let value = text_of(&chars, from, to);
        assert(value@ =~= challenge@.subrange(from as int, to as int));
        Some(value)
    } else {
        None
    }
}

/// Where the token of a challenge is asked for: at its realm, for its service and
/// its scope.
pub open spec fn token_address(challenge: Seq<char>) -> Option<Seq<char>> {
    match parameter(challenge, "realm"@) {
        Some(realm) => {
            let service = match parameter(challenge, "service"@) {
                Some(service) => service,
                None => seq![],
            };
            match parameter(challenge, "scope"@) {
                Some(scope) => Some(realm + "?service="@ + service + "&scope="@ + scope),
                None => Some(realm + "?service="@ + service),
            }
        },
        None => None,
    }
}

/// Where the token of a challenge is asked for.
pub fn token_url(challenge: &str) -> (url: Option<String>)
    ensures
        url.deep_view() == token_address(challenge@),
{
    let realm = match challenge_parameter(challenge, "realm") {
        Some(realm) => realm,
        None => {
            return None;
        },
    };
    let service = match challenge_parameter(challenge, "service") {
        Some(service) => service,
        None => {
            let empty = String::new();
            assert(empty@ =~= seq![]);
            empty
        },
    };
    match challenge_parameter(challenge, "scope") {
        Some(scope) => Some(glue5(&realm, "?service=", &service, "&scope=", &scope)),
        None => Some(glue3(&realm, "?service=", &service)),
    }
}

/// A challenge of one parameter gives its value back.
pub proof fn quoted_values_are_read(name: Seq<char>, value: Seq<char>)
    requires
        !value.contains('"'),
    ensures
        parameter(name + "=\""@ + value + "\""@, name) == Some(value),
{
    reveal_strlit("=\"");
    reveal_strlit("\"");
    let key = name + "=\""@;
    let challenge = name + "=\""@ + value + "\""@;
    let from = key.len() as int;
    let to = from + value.len();
    assert(challenge.subrange(0, from) =~= key);
    assert(occurs_at(challenge, key, 0));
    assert(challenge[to] == '"');
    assert forall|i: int| from <= i < to implies challenge[i] != '"' by {
        assert(challenge[i] == value[i - from]);
        assert(value.contains(value[i - from]));
    }
    lemma_index_from_unique(challenge, '"', from, to);
    assert(challenge.subrange(from, to) =~= value);
}

// ---------------------------------------------------------------------------
// Laws
// ---------------------------------------------------------------------------
/// Where a text occurs first is found.
proof fn lemma_text_index_at(s: Seq<char>, needle: Seq<char>, from: int, at: int)
    requires
        0 <= from <= at,
        needle.len() > 0,
        occurs_at(s, needle, at),
        forall|i: int| from <= i < at ==> !occurs_at(s, needle, i),
    ensures
        text_index(s, needle, from) == at,
    decreases at - from,
{
    if from < at {
        assert(!occurs_at(s, needle, from));
        lemma_text_index_at(s, needle, from + 1, at);
    }
}

/// A parameter of a challenge is what stands in quotes after its name, the first time that
/// the name stands before quotes.
pub proof fn parameters_are_read_where_they_stand(
    front: Seq<char>,
    name: Seq<char>,
    value: Seq<char>,
    back: Seq<char>,
)
    requires
        !value.contains('"'),
        forall|i: int|
            0 <= i < front.len() ==> !occurs_at(
                front + (name + "=\""@ + value + "\""@ + back),
                name + "=\""@,
                i,
            ),
    ensures
        parameter(front + (name + "=\""@ + value + "\""@ + back), name) == Some(value),
{
    reveal_strlit("=\"");
    reveal_strlit("\"");
    let key = name + "=\""@;
    let challenge = front + (key + value + "\""@ + back);
    let at = front.len() as int;
    assert(challenge.subrange(at, at + key.len()) =~= key);
    lemma_text_index_at(challenge, key, 0, at);
    let from = at + key.len();
    let to = from + value.len();
    assert forall|i: int| from <= i < to implies challenge[i] != '"' by {
        assert(challenge[i] == value[i - from]);
        assert(value.contains(value[i - from]));
    }
    assert(challenge[to] == '"');
    lemma_index_from_unique(challenge, '"', from, to);
    assert(challenge.subrange(from, to) =~= value);
}

/// A token is asked for at the realm of the challenge, and only where it has one: for its
/// service, and for its scope where it has one.
pub proof fn tokens_are_asked_for_at_the_realm(challenge: Seq<char>)
    ensures
        token_address(challenge) is Some <==> parameter(challenge, "realm"@) is Some,
        parameter(challenge, "realm"@) matches Some(realm) ==> (token_address(challenge) matches
            Some(address) && begins(address, realm + "?service="@) && (parameter(
            challenge,
            "service"@,
        ) matches Some(service) ==> begins(address, realm + "?service="@ + service)) && (parameter(
            challenge,
            "scope"@,
        ) matches Some(scope) ==> ends(address, "&scope="@ + scope)) && (parameter(
            challenge,
            "scope"@,
        ) is None ==> (parameter(challenge, "service"@) matches Some(service) ==> address == realm
            + "?service="@ + service))),
{
    if let Some(address) = token_address(challenge) {
        let realm = parameter(challenge, "realm"@)->0;
        let front = realm + "?service="@;
        assert(address.take(front.len() as int) =~= front);
        if let Some(service) = parameter(challenge, "service"@) {
            let longer = front + service;
            assert(address.take(longer.len() as int) =~= longer);
        }
        if let Some(scope) = parameter(challenge, "scope"@) {
            let back = "&scope="@ + scope;
            assert(address.skip(address.len() - back.len()) =~= back);
        }
    }
}

/// The registry of a server is its host, whatever stands before and after it in the
/// address; the two hosts of Docker's registry stand for that one.
pub proof fn servers_are_known_by_their_host(host: Seq<char>, path: Seq<char>)
    requires
        !host.contains('/'),
    ensures
        ({
            let name = if host == "index.docker.io"@ || host == "registry-1.docker.io"@ {
                "docker.io"@
            } else {
                host
            };
            &&& registry_of("https://"@ + host + seq!['/'] + path) == name
            &&& registry_of("https://"@ + host) == name
            &&& registry_of(host) == name
        }),
{
    reveal_strlit("https://");
    reveal_strlit("http://");
    let whole = "https://"@ + host + seq!['/'] + path;
    let short = "https://"@ + host;
    assert(whole.take(8) =~= "https://"@);
    assert(whole.skip(8) =~= host + seq!['/'] + path);
    assert(short.take(8) =~= "https://"@);
    assert(short.skip(8) =~= host);
    texts_are_cut_at_the_first(host, '/', path);
    lemma_host_has_no_scheme(host, "https://"@, 7);
    lemma_host_has_no_scheme(host, "http://"@, 6);
}

proof fn lemma_host_has_no_scheme(host: Seq<char>, scheme: Seq<char>, slash: int)
    requires
        !host.contains('/'),
        0 <= slash < scheme.len(),
        scheme[slash] == '/',
    ensures
        after_prefix(host, scheme) is None,
{
    if scheme.len() <= host.len() && host.take(scheme.len() as int) == scheme {
        assert(host.take(scheme.len() as int)[slash] == host[slash]);
        assert(host.contains(host[slash]));
    }
}

/// The credentials of a login are those that are encoded in it, and where there are none,
/// its two fields, where it has both.
pub proof fn encoded_logins_come_first(login: LoginModel)
    ensures
        login.auth matches Some(auth) ==> (login_in(auth) is Some ==> credentials_in(login)
            == login_in(auth)),
        login.auth is None || login_in(login.auth->0) is None ==> match (
            login.username,
            login.password,
        ) {
            (Some(username), Some(password)) => credentials_in(login) == Some(
                (username, password),
            ),
            _ => credentials_in(login) is None,
        },
{
}

/// The last login for a registry that gives credentials counts.
pub proof fn last_logins_count(
    logins: Seq<LoginModel>,
    count: int,
    at: int,
    pair: (Seq<char>, Seq<char>),
)
    requires
        0 <= at < count <= logins.len(),
        credentials_in(logins[at]) == Some(pair),
        forall|later: int|
            at < later < count ==> registry_of((#[trigger] logins[later]).server) != registry_of(
                logins[at].server,
            ) || credentials_in(logins[later]) is None,
    ensures
        docker_credentials(logins, count).contains_key(registry_of(logins[at].server)),
        docker_credentials(logins, count)[registry_of(logins[at].server)] == pair,
    decreases count,
{
    if at < count - 1 {
        assert(registry_of(logins[count - 1].server) != registry_of(logins[at].server)
            || credentials_in(logins[count - 1]) is None);
        last_logins_count(logins, count - 1, at, pair);
    }
}

} // verus!
