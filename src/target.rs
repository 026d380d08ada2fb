use vstd::prelude::*;

use crate::error::PoolError;

verus! {

/// How the pool authenticates to a target.
#[derive(PartialEq, Eq, Structural, Clone, Copy, Debug)]
pub enum TargetAuthMethod {
    Password,
    PrivateKey,
    NoAuth,
}

/// The numeric code a method is stored under.
pub open spec fn method_of_code(v: i32) -> Option<TargetAuthMethod> {
    if v == 1 {
        Some(TargetAuthMethod::Password)
    } else if v == 2 {
        Some(TargetAuthMethod::PrivateKey)
    } else if v == 3 {
        Some(TargetAuthMethod::NoAuth)
    } else {
        None
    }
}

impl TargetAuthMethod {
    /// The method stored under code `value`: 1 password, 2 private key,
    /// 3 none.
    pub fn try_from(value: i32) -> (r: Result<TargetAuthMethod, String>)
        ensures
            match method_of_code(value) {
                Some(m) => r == Ok::<TargetAuthMethod, String>(m),
                None => r is Err,
            },
    {
        if value == 1 {
            Ok(TargetAuthMethod::Password)
        } else if value == 2 {
            Ok(TargetAuthMethod::PrivateKey)
        } else if value == 3 {
            Ok(TargetAuthMethod::NoAuth)
        } else {
            Err(String::from_str("invalid target auth method value"))
        }
    }

    /// The code the method is stored under.
    pub fn code(&self) -> (r: i32)
        ensures
            method_of_code(r) == Some(*self),
    {
        match self {
            TargetAuthMethod::Password => 1,
            TargetAuthMethod::PrivateKey => 2,
            TargetAuthMethod::NoAuth => 3,
        }
    }
}

/// A stored SSH endpoint, as the pool loads it.
pub struct Target {
    pub id: i32,
    pub host: String,
    pub port: Option<u16>,
    pub method: TargetAuthMethod,
    pub user: String,
    pub key: Option<String>,
    pub password: Option<String>,
    /// `windows`, or another operating system.
    pub system: Option<String>,
}

/// The authentication a connection attempt performs.
pub enum AuthStep {
    Password { user: String, password: String },
    PublicKey { user: String, key: String, passphrase: Option<String> },
}

/// Where and how to connect to a target.
pub struct ConnectPlan {
    pub host: String,
    pub port: u16,
    pub auth: AuthStep,
}

pub open spec fn text_or_empty(s: Option<String>) -> Seq<char> {
    match s {
        Some(v) => v@,
        None => Seq::empty(),
    }
}

fn clone_text(s: &Option<String>) -> (r: Option<String>)
    ensures
        r == *s,
{
    match s {
        Some(v) => Some(v.clone()),
        None => None,
    }
}

fn text_or_empty_exec(s: &Option<String>) -> (r: String)
    ensures
        r@ == text_or_empty(*s),
{
    match s {
        Some(v) => v.clone(),
        None => String::new(),
    }
}

/// How to reach `t`: its host, its port (22 when unset), and the
/// authentication its method calls for; a missing password or key counts
/// as empty, and a key is unlocked with the password if there is one. A
/// target without an authentication method cannot be connected to.
pub fn connect_plan(t: &Target) -> (r: Result<ConnectPlan, PoolError>)
    ensures
        t.method == TargetAuthMethod::NoAuth ==> r == Err::<ConnectPlan, PoolError>(PoolError::AuthFailure),
        t.method != TargetAuthMethod::NoAuth ==> (r matches Ok(p) && {
            &&& p.host@ == t.host@
            &&& p.port == match t.port {
                Some(port) => port,
                None => 22u16,
            }
            &&& t.method == TargetAuthMethod::Password ==> (p.auth matches AuthStep::Password { user, password }
                && user@ == t.user@ && password@ == text_or_empty(t.password))
            &&& t.method == TargetAuthMethod::PrivateKey ==> (p.auth matches AuthStep::PublicKey {
                user,
                key,
                passphrase,
            } && user@ == t.user@ && key@ == text_or_empty(t.key) && passphrase == t.password)
        }),
{
    let port = match t.port {
        Some(p) => p,
        None => 22,
    };
    let auth = match t.method {
        TargetAuthMethod::NoAuth => return Err(PoolError::AuthFailure),
        TargetAuthMethod::Password => AuthStep::Password {
            user: t.user.clone(),
            password: text_or_empty_exec(&t.password),
        },
        TargetAuthMethod::PrivateKey => AuthStep::PublicKey {
            user: t.user.clone(),
            key: text_or_empty_exec(&t.key),
            passphrase: clone_text(&t.password),
        },
    };
    Ok(ConnectPlan { host: t.host.clone(), port, auth })
}

/// The outcome of the authentication step: rejected credentials are an
/// authentication failure.
pub fn auth_outcome(accepted: bool) -> (r: Result<(), PoolError>)
    ensures
        accepted <==> r is Ok,
        !accepted ==> r == Err::<(), PoolError>(PoolError::AuthFailure),
{
    if accepted {
        Ok(())
    } else {
        Err(PoolError::AuthFailure)
    }
}

} // verus!
