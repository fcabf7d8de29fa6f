//! Verified core of the Snack Slack client: timestamps, text handling,
//! message timelines, file and attachment helpers, request builders and the
//! theme model.

pub mod text;
pub mod ts;
pub mod ts_order;
pub mod models;
pub mod channels;
pub mod reactions;
pub mod timeline;
pub mod labels;
pub mod size;
pub mod files;
pub mod emoji;
pub mod request;
pub mod urls;
pub mod attachments;
pub mod mpdm;
pub mod keyed;
pub mod state;
pub mod wellformed;
pub mod sections;
pub mod clock;
pub mod dates;
pub mod composer;
pub mod keys;
pub mod message_view;
pub mod activity;
pub mod dms;
pub mod bundle;
pub mod panels;
pub mod sidebar;
pub mod theme;
pub mod offsets;
pub mod selectable;
