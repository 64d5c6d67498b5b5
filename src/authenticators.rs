pub mod authenticator;
pub mod json;
pub mod ldap;
pub mod token;
