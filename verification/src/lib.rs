//! Verified core of a music-management Discord bot: reading the JSON answers
//! of ListenBrainz, MusicBrainz and Headphones, building their request URLs,
//! ordering albums, and composing the bot's replies.

pub mod json;
pub mod text;
pub mod album;
pub mod listenbrainz;
pub mod musicbrainz;
pub mod headphones;
pub mod replies;
