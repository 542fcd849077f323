//! The playlist service that is searched with field-qualified queries.
use vstd::prelude::*;
use crate::Secret;

verus! {

/// Credentials and the playlist to update.
pub struct Settings {
    pub client_id: String,
    pub client_secret: Secret<String>,
    pub refresh_token: Secret<String>,
    pub playlist_id: String,
}

} // verus!
