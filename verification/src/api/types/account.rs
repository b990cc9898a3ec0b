//! Accounts.

use crate::api::error::EpicAPIError;
use crate::api::payload::option_view;
use crate::api::table::Table;
use vstd::prelude::*;
use vstd::string::StringExecFns;

verus! {

/// What the account service knows of an account.
#[derive(Default, Debug, Clone, PartialEq)]
pub struct AccountData {
    pub age_group: String,
    pub can_update_display_name: bool,
    pub company: String,
    pub country: String,
    pub display_name: String,
    pub email: String,
    pub email_verified: bool,
    pub failed_login_attempts: i64,
    pub headless: bool,
    pub id: String,
    pub last_display_name_change: String,
    pub last_login: String,
    pub last_name: String,
    pub minor_expected: bool,
    pub minor_status: String,
    pub minor_verified: bool,
    pub name: String,
    pub number_of_display_name_changes: i64,
    pub preferred_language: String,
    pub tfa_enabled: bool,
}

/// The public face of an account.
#[derive(Default, Debug, Clone, PartialEq)]
pub struct AccountInfo {
    pub display_name: String,
    pub external_auths: Table<ExternalAuth>,
    pub id: String,
}

/// A link of an account to another platform.
#[derive(Default, Debug, Clone, PartialEq)]
pub struct ExternalAuth {
    pub account_id: String,
    pub auth_ids: Vec<AuthId>,
    pub date_added: Option<String>,
    pub avatar: Option<String>,
    pub external_auth_id: Option<String>,
    pub external_auth_id_type: String,
    pub external_display_name: String,
    pub type_field: String,
    pub external_auth_secondary_id: Option<String>,
}

/// An id of an account on another platform.
#[derive(Default, Debug, Clone, PartialEq)]
pub struct AuthId {
    pub id: String,
    pub type_field: String,
}

/// A point in time: seconds and nanoseconds since the start of 1970 in
/// UTC.
#[derive(Default, Debug, Clone, Copy, PartialEq, Eq)]
pub struct Timestamp {
    pub seconds: i64,
    pub nanos: u32,
}

impl Timestamp {
    /// Nanoseconds since the start of 1970.
    pub open spec fn total_nanos(self) -> int {
        self.seconds * 1_000_000_000 + self.nanos
    }

    /// Whether this point in time is more than 600 whole seconds after
    /// `now`.
    pub open spec fn far_after(self, now: Timestamp) -> bool {
        self.total_nanos() - now.total_nanos() >= 601_000_000_000
    }

    /// Tests whether this point in time is more than 600 whole seconds
    /// after `now`.
    pub fn is_far_after(&self, now: &Timestamp) -> (far: bool)
        ensures
            far == self.far_after(*now),
    {
        let this: i128 = self.seconds as i128 * 1_000_000_000 + self.nanos as i128;
        let that: i128 = now.seconds as i128 * 1_000_000_000 + now.nanos as i128;
        this - that >= 601_000_000_000
    }
}

/// What a session holds: the tokens of the user, when they expire, and
/// what the account service said of the account and the client.
#[derive(Default, Debug, Clone, PartialEq)]
pub struct UserData {
    access_token: Option<String>,
    pub expires_in: Option<i64>,
    pub expires_at: Option<Timestamp>,
    pub token_type: Option<String>,
    refresh_token: Option<String>,
    pub refresh_expires: Option<i64>,
    pub refresh_expires_at: Option<Timestamp>,
    pub account_id: Option<String>,
    pub client_id: Option<String>,
    pub internal_client: Option<bool>,
    pub client_service: Option<String>,
    pub display_name: Option<String>,
    pub app: Option<String>,
    pub in_app_id: Option<String>,
    pub device_id: Option<String>,
    pub error_message: Option<String>,
    pub error_code: Option<String>,
}

/// What the data of a session holds.
pub struct UserModel {
    pub access_token: Option<Seq<char>>,
    pub expires_in: Option<i64>,
    pub expires_at: Option<Timestamp>,
    pub token_type: Option<Seq<char>>,
    pub refresh_token: Option<Seq<char>>,
    pub refresh_expires: Option<i64>,
    pub refresh_expires_at: Option<Timestamp>,
    pub account_id: Option<Seq<char>>,
    pub client_id: Option<Seq<char>>,
    pub internal_client: Option<bool>,
    pub client_service: Option<Seq<char>>,
    pub display_name: Option<Seq<char>>,
    pub app: Option<Seq<char>>,
    pub in_app_id: Option<Seq<char>>,
    pub device_id: Option<Seq<char>>,
    pub error_message: Option<Seq<char>>,
    pub error_code: Option<Seq<char>>,
}

/// The newer of two optional values: the new one where there is one, else
/// the old one.
pub open spec fn newer<T>(new: Option<T>, old: Option<T>) -> Option<T> {
    match new {
        Some(value) => Some(value),
        None => old,
    }
}

/// The data of a session with every value of `new` in place of the old
/// one, and every old value kept that `new` has none for.
pub open spec fn merged(old: UserModel, new: UserModel) -> UserModel {
    UserModel {
        access_token: newer(new.access_token, old.access_token),
        expires_in: newer(new.expires_in, old.expires_in),
        expires_at: newer(new.expires_at, old.expires_at),
        token_type: newer(new.token_type, old.token_type),
        refresh_token: newer(new.refresh_token, old.refresh_token),
        refresh_expires: newer(new.refresh_expires, old.refresh_expires),
        refresh_expires_at: newer(new.refresh_expires_at, old.refresh_expires_at),
        account_id: newer(new.account_id, old.account_id),
        client_id: newer(new.client_id, old.client_id),
        internal_client: newer(new.internal_client, old.internal_client),
        client_service: newer(new.client_service, old.client_service),
        display_name: newer(new.display_name, old.display_name),
        app: newer(new.app, old.app),
        in_app_id: newer(new.in_app_id, old.in_app_id),
        device_id: newer(new.device_id, old.device_id),
        error_message: newer(new.error_message, old.error_message),
        error_code: newer(new.error_code, old.error_code),
    }
}

impl View for UserData {
    type V = UserModel;

    closed spec fn view(&self) -> UserModel {
        UserModel {
            access_token: option_view(self.access_token),
            expires_in: self.expires_in,
            expires_at: self.expires_at,
            token_type: option_view(self.token_type),
            refresh_token: option_view(self.refresh_token),
            refresh_expires: self.refresh_expires,
            refresh_expires_at: self.refresh_expires_at,
            account_id: option_view(self.account_id),
            client_id: option_view(self.client_id),
            internal_client: self.internal_client,
            client_service: option_view(self.client_service),
            display_name: option_view(self.display_name),
            app: option_view(self.app),
            in_app_id: option_view(self.in_app_id),
            device_id: option_view(self.device_id),
            error_message: option_view(self.error_message),
            error_code: option_view(self.error_code),
        }
    }
}

/// Data of a session in which nothing is known.
pub open spec fn blank_user() -> UserModel {
    UserModel {
        access_token: None,
        expires_in: None,
        expires_at: None,
        token_type: None,
        refresh_token: None,
        refresh_expires: None,
        refresh_expires_at: None,
        account_id: None,
        client_id: None,
        internal_client: None,
        client_service: None,
        display_name: None,
        app: None,
        in_app_id: None,
        device_id: None,
        error_message: None,
        error_code: None,
    }
}

/// The next step of a login.
#[derive(Debug, Clone, Copy, PartialEq, Eq)]
pub enum LoginStep {
    /// Ask the service whether the session at hand is still good.
    ResumeSession,
    /// Start a session with the refresh token.
    StartSession,
    /// The login is over, with or without a session.
    Finished(bool),
}

/// What a call to the account service came back with: whether the
/// session holds, or nothing where the call failed.
pub open spec fn step_after_refresh(user: UserModel, now: Timestamp) -> LoginStep {
    match user.refresh_expires_at {
        Some(expires) => if expires.far_after(now) {
            LoginStep::StartSession
        } else {
            LoginStep::Finished(false)
        },
        None => LoginStep::Finished(false),
    }
}

/// The first step of a login: to resume the session where the access
/// token is good for more than ten minutes, else what follows a failed
/// resumption.
pub open spec fn first_step(user: UserModel, now: Timestamp) -> LoginStep {
    match user.expires_at {
        Some(expires) => if expires.far_after(now) {
            LoginStep::ResumeSession
        } else {
            step_after_refresh(user, now)
        },
        None => step_after_refresh(user, now),
    }
}

/// The parameters of a request for a session: an exchange code is used
/// where there is one, else an authorization code, else the refresh token.
pub open spec fn grant_of(
    exchange: Option<Seq<char>>,
    code: Option<Seq<char>>,
    refresh: Option<Seq<char>>,
) -> Option<Seq<(Seq<char>, Seq<char>)>> {
    match exchange {
        Some(token) => Some(
            seq![
                ("grant_type"@, "exchange_code"@),
                ("exchange_code"@, token),
                ("token_type"@, "eg1"@),
            ],
        ),
        None => match code {
            Some(auth) => Some(
                seq![
                    ("grant_type"@, "authorization_code"@),
                    ("code"@, auth),
                    ("token_type"@, "eg1"@),
                ],
            ),
            None => match refresh {
                Some(token) => Some(
                    seq![
                        ("grant_type"@, "refresh_token"@),
                        ("refresh_token"@, token),
                        ("token_type"@, "eg1"@),
                    ],
                ),
                None => None,
            },
        },
    }
}

/// The names and values of a sequence of pairs of strings.
pub open spec fn pair_views(pairs: Seq<(String, String)>) -> Seq<(Seq<char>, Seq<char>)> {
    pairs.map_values(|p: (String, String)| (p.0@, p.1@))
}

/// Three pairs of strings.
pub fn three_pairs(a: (&str, String), b: (&str, String), c: (&str, String)) -> (pairs: Vec<
    (String, String),
>)
    ensures
        pair_views(pairs@) == seq![(a.0@, a.1@), (b.0@, b.1@), (c.0@, c.1@)],
{
    let mut pairs: Vec<(String, String)> = Vec::new();
    pairs.push((a.0.to_owned(), a.1));
    pairs.push((b.0.to_owned(), b.1));
    pairs.push((c.0.to_owned(), c.1));
    assert(pair_views(pairs@) =~= seq![(a.0@, a.1@), (b.0@, b.1@), (c.0@, c.1@)]);
    pairs
}

/// Puts a new value in the place of an old one, where there is a new one.
pub fn absorb<T>(slot: &mut Option<T>, new: Option<T>)
    ensures
        *final(slot) == newer(new, *old(slot)),
{
    if let Some(value) = new {
        *slot = Some(value);
    }
}

impl UserData {
    /// Data of a session in which nothing is known.
    pub fn new() -> (user: Self)
        ensures
            user@ == blank_user(),
    {
        UserData {
            access_token: None,
            expires_in: None,
            expires_at: None,
            token_type: None,
            refresh_token: None,
            refresh_expires: None,
            refresh_expires_at: None,
            account_id: None,
            client_id: None,
            internal_client: None,
            client_service: None,
            display_name: None,
            app: None,
            in_app_id: None,
            device_id: None,
            error_message: None,
            error_code: None,
        }
    }

    /// The access token.
    pub fn access_token(&self) -> (token: Option<String>)
        ensures
            option_view(token) == self@.access_token,
    {
        self.access_token.clone()
    }

    /// The refresh token.
    pub fn refresh_token(&self) -> (token: Option<String>)
        ensures
            option_view(token) == self@.refresh_token,
    {
        self.refresh_token.clone()
    }

    /// Sets the access token.
    pub fn set_access_token(&mut self, token: Option<String>)
        ensures
            final(self)@ == (UserModel { access_token: option_view(token), ..old(self)@ }),
    {
        self.access_token = token;
    }

    /// Sets the refresh token.
    pub fn set_refresh_token(&mut self, token: Option<String>)
        ensures
            final(self)@ == (UserModel { refresh_token: option_view(token), ..old(self)@ }),
    {
        self.refresh_token = token;
    }

    /// Takes over every value that `new` has and keeps the others.
    pub fn update(&mut self, new: UserData)
        ensures
            final(self)@ == merged(old(self)@, new@),
    {
        absorb(&mut self.access_token, new.access_token);
        absorb(&mut self.expires_in, new.expires_in);
        absorb(&mut self.expires_at, new.expires_at);
        absorb(&mut self.token_type, new.token_type);
        absorb(&mut self.refresh_token, new.refresh_token);
        absorb(&mut self.refresh_expires, new.refresh_expires);
        absorb(&mut self.refresh_expires_at, new.refresh_expires_at);
        absorb(&mut self.account_id, new.account_id);
        absorb(&mut self.client_id, new.client_id);
        absorb(&mut self.internal_client, new.internal_client);
        absorb(&mut self.client_service, new.client_service);
        absorb(&mut self.display_name, new.display_name);
        absorb(&mut self.app, new.app);
        absorb(&mut self.in_app_id, new.in_app_id);
        absorb(&mut self.device_id, new.device_id);
        absorb(&mut self.error_message, new.error_message);
        absorb(&mut self.error_code, new.error_code);
    }

    /// Whether the access token is good for more than ten minutes from
    /// `now` on.
    pub fn is_logged_in_at(&self, now: Timestamp) -> (logged_in: bool)
        ensures
            logged_in == match self@.expires_at {
                Some(expires) => expires.far_after(now),
                None => false,
            },
    {
        match &self.expires_at {
            Some(expires) => expires.is_far_after(&now),
            None => false,
        }
    }

    /// What a login does once resuming the session failed or was not
    /// tried: it starts a session where the refresh token is good for more
    /// than ten minutes, else it gives up.
    pub fn login_step_after_resume(&self, now: Timestamp) -> (step: LoginStep)
        ensures
            step == step_after_refresh(self@, now),
    {
        match &self.refresh_expires_at {
            Some(expires) => if expires.is_far_after(&now) {
                LoginStep::StartSession
            } else {
                LoginStep::Finished(false)
            },
            None => LoginStep::Finished(false),
        }
    }

    /// The first step of a login.
    pub fn login_first_step(&self, now: Timestamp) -> (step: LoginStep)
        ensures
            step == first_step(self@, now),
    {
        if self.is_logged_in_at(now) {
            LoginStep::ResumeSession
        } else {
            self.login_step_after_resume(now)
        }
    }

    /// The step that follows an attempt to resume the session: the login
    /// is over where the service answered, with what it said; where the
    /// call failed, the login goes on with the refresh token.
    pub fn login_step_on_resumed(&self, now: Timestamp, answer: Option<bool>) -> (step: LoginStep)
        ensures
            step == match answer {
                Some(holds) => LoginStep::Finished(holds),
                None => step_after_refresh(self@, now),
            },
    {
        match answer {
            Some(holds) => LoginStep::Finished(holds),
            None => self.login_step_after_resume(now),
        }
    }

    /// The parameters of a request for a session.
    pub fn grant_params(&self, exchange_token: Option<String>, authorization_code: Option<String>)
        -> (params: Option<Vec<(String, String)>>)
        ensures
            match params {
                Some(pairs) => grant_of(
                    option_view(exchange_token),
                    option_view(authorization_code),
                    self@.refresh_token,
                ) == Some(pair_views(pairs@)),
                None => grant_of(
                    option_view(exchange_token),
                    option_view(authorization_code),
                    self@.refresh_token,
                ) is None,
            },
    {
        match exchange_token {
            Some(token) => Some(
                three_pairs(
                    ("grant_type", "exchange_code".to_owned()),
                    ("exchange_code", token),
                    ("token_type", "eg1".to_owned()),
                ),
            ),
            None => match authorization_code {
                Some(auth) => Some(
                    three_pairs(
                        ("grant_type", "authorization_code".to_owned()),
                        ("code", auth),
                        ("token_type", "eg1".to_owned()),
                    ),
                ),
                None => match &self.refresh_token {
                    Some(token) => Some(
                        three_pairs(
                            ("grant_type", "refresh_token".to_owned()),
                            ("refresh_token", token.clone()),
                            ("token_type", "eg1".to_owned()),
                        ),
                    ),
                    None => None,
                },
            },
        }
    }

    /// The value of the header that authorizes a request: the kind of
    /// token, `bearer` where none is known, a space, and the access token,
    /// which is empty where none is known.
    pub fn authorization(&self) -> (value: String)
        ensures
            value@ == (match self@.token_type {
                Some(kind) => kind,
                None => "bearer"@,
            }) + " "@ + (match self@.access_token {
                Some(token) => token,
                None => Seq::empty(),
            }),
    {
        let mut value: String = match &self.token_type {
            Some(kind) => kind.clone(),
            None => "bearer".to_owned(),
        };
        value.append(" ");
        match &self.access_token {
            Some(token) => {
                value.append(token.as_str());
            },
            None => {
                assert(value@ =~= value@ + Seq::<char>::empty());
            },
        }
        value
    }

    /// Takes in the answer of the account service to a request for a
    /// session. A server error and an answer that could not be read leave
    /// the data as it is. Else the data takes over what the answer holds;
    /// the login failed where an error message is known then.
    pub fn take_login_response(&mut self, server_error: bool, answer: Option<UserData>) -> (outcome:
        Result<bool, EpicAPIError>)
        ensures
            match outcome {
                Ok(flag) => {
                    &&& flag
                    &&& !server_error
                    &&& answer is Some
                    &&& final(self)@ == merged(old(self)@, answer.unwrap()@)
                    &&& final(self)@.error_message is None
                },
                Err(EpicAPIError::Server) => server_error && final(self)@ == old(self)@,
                Err(EpicAPIError::Unknown) => !server_error && answer is None && final(self)@
                    == old(self)@,
                Err(EpicAPIError::APIError(text)) => {
                    &&& !server_error
                    &&& answer is Some
                    &&& final(self)@ == merged(old(self)@, answer.unwrap()@)
                    &&& final(self)@.error_message == Some(text@)
                },
                Err(_) => false,
            },
    {
        if server_error {
            return Err(EpicAPIError::Server);
        }
        let new: UserData = match answer {
            Some(new) => new,
            None => {
                return Err(EpicAPIError::Unknown);
            },
        };
        self.update(new);
        match &self.error_message {
            Some(message) => Err(EpicAPIError::APIError(message.clone())),
            None => Ok(true),
        }
    }
}

} // verus!
