//! What holds of the library whatever it is given, said of inputs and results.
pub mod backups;
pub mod caches;
pub mod configurations;
pub mod events;
pub mod exclusions;
pub mod findings;
pub mod messages;
pub mod orders;
pub mod paths;
pub mod repositories;
pub mod rescans;
pub mod sizes;
pub mod texts;
pub mod watches;
