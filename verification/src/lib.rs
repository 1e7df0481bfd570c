//! Coordination of Lian Li LCD panels, coolers and wireless receivers.
pub mod bytes;
pub mod control;
pub mod group_recovery;
pub mod group_watch;
pub mod h2_aio;
pub mod h2_pwm;
pub mod h2_ring;
pub mod journal;
pub mod lcd_core;
pub mod lcd_groups;
pub mod lcd_link;
pub mod lcd_recovery;
pub mod lcd_reply;
pub mod media;
pub mod pending;
pub mod quarantine;
pub mod refresh;
pub mod registry;
pub mod ring_cycle;
pub mod selection;
pub mod service;
pub mod startup_image;
pub mod stream;
pub mod table;
pub mod text;
pub mod topology;
pub mod upload;
pub mod wireless;
