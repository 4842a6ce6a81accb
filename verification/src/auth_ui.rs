//! The pages of the identity server: what each request asks of the engine,
//! and what is answered once the engine has replied.

pub mod accounts;
pub mod admin;
pub mod api_keys;
pub mod assets;
pub mod chrome;
pub mod consent;
pub mod cookies;
pub mod dates;
pub mod device;
pub mod engine;
pub mod guest;
pub mod last_login;
pub mod login;
pub mod mailer;
pub mod multi_session;
pub mod orgs;
pub mod page;
pub mod passkey_script;
pub mod passkeys;
pub mod phone;
pub mod profile;
pub mod qr;
pub mod sessions;
pub mod settings;
pub mod slug;
pub mod state;
pub mod two_factor;
pub mod utilities;
pub mod views;
pub mod wallet;
