use vstd::prelude::*;

verus! {

/// Key that signs and checks the dashboard's bearer tokens.
pub const JWT_SECRET: &'static str = "vstats-super-secret-key-change-in-production";

pub const CONFIG_FILE: &'static str = "vstats-config.json";

pub const DB_FILE: &'static str = "vstats.db";

/// Password of the administrator account of a fresh configuration.
pub const INITIAL_ADMIN_PASSWORD: &'static str = "admin";

/// Work factor used for password hashes.
pub const HASH_COST: u32 = 12;

pub struct SocialLink {
    pub platform: String,
    pub url: String,
    pub label: String,
}

pub struct SiteSettings {
    pub site_name: String,
    pub site_description: String,
    pub social_links: Vec<SocialLink>,
}

/// A monitored server as the configuration lists it.
pub struct RemoteServer {
    pub id: String,
    pub name: String,
    pub url: String,
    pub location: String,
    pub provider: String,
    pub token: String,
}

pub struct AppConfig {
    pub admin_password_hash: String,
    pub servers: Vec<RemoteServer>,
    pub site_settings: SiteSettings,
}

/// Why a configuration could not be made.
#[derive(Clone, Copy, Debug, PartialEq, Eq, Structural)]
pub enum ConfigError {
    /// The password hash could not be computed.
    Hashing,
}

#[verifier::external_type_specification]
#[verifier::external_body]
pub struct ExBcryptError(bcrypt::BcryptError);

/// Relies on `bcrypt::hash`: a salted hash of `password`; it fails whenever `cost`
/// is outside 4..=31 (and when the system cannot supply a random salt).
#[verifier::external_body]
fn hash_password(password: &str, cost: u32) -> (r: Result<String, bcrypt::BcryptError>)
    ensures
        cost < 4 || cost > 31 ==> r is Err,
{
    bcrypt::hash(password, cost)
}

impl Default for SiteSettings {
    fn default() -> (r: SiteSettings)
        ensures
            r.site_name@.len() == 0,
            r.site_description@.len() == 0,
            r.social_links@.len() == 0,
    {
        SiteSettings { site_name: String::new(), site_description: String::new(), social_links: Vec::new() }
    }
}

impl AppConfig {
    /// The configuration of a fresh install, whose administrator password has the
    /// hash `admin_password_hash`: no servers, the default site title and description,
    /// no social links.
    pub fn with_admin_hash(admin_password_hash: String) -> (r: AppConfig)
        ensures
            r.admin_password_hash == admin_password_hash,
            r.servers@.len() == 0,
            r.site_settings.site_name@ == "xProb Dashboard"@,
            r.site_settings.site_description@ == "Real-time Server Monitoring"@,
            r.site_settings.social_links@.len() == 0,
    {
        AppConfig {
            admin_password_hash,
            servers: Vec::new(),
            site_settings: SiteSettings {
                site_name: "xProb Dashboard".to_owned(),
                site_description: "Real-time Server Monitoring".to_owned(),
                social_links: Vec::new(),
            },
        }
    }

    /// The configuration of a fresh install, with the initial administrator password
    /// hashed; `Hashing` when the hash cannot be computed.
    pub fn default_config() -> (r: Result<AppConfig, ConfigError>)
        ensures
            r matches Ok(c) ==> {
                &&& c.servers@.len() == 0
                &&& c.site_settings.site_name@ == "xProb Dashboard"@
                &&& c.site_settings.site_description@ == "Real-time Server Monitoring"@
                &&& c.site_settings.social_links@.len() == 0
            },
            r matches Err(e) ==> e == ConfigError::Hashing,
    {
        match hash_password(INITIAL_ADMIN_PASSWORD, HASH_COST) {
            Ok(h) => Ok(AppConfig::with_admin_hash(h)),
            Err(_) => Err(ConfigError::Hashing),
        }
    }

    /// Position of the server with id `id` in the configuration, if listed.
    pub fn server_index(&self, id: &String) -> (r: Option<usize>)
        ensures
            r matches Some(i) ==> i < self.servers@.len() && self.servers@[i as int].id@ == id@,
            r is None ==> forall|k: int| 0 <= k < self.servers@.len() ==> (#[trigger] self.servers@[k]).id@ != id@,
    {
        let mut i: usize = 0;
        while i < self.servers.len()
            invariant
                i <= self.servers@.len(),
                forall|k: int| 0 <= k < i ==> (#[trigger] self.servers@[k]).id@ != id@,
            decreases self.servers.len() - i,
        {
            if self.servers[i].id == *id {
                return Some(i);
            }
            i = i + 1;
        }
        None
    }
}

} // verus!
