//! Verified core logic of the ClawHive / claw10 agent platform: cron
//! schedules, key-value storage, the audit log, the gateway's channels and
//! sessions, event subjects, the tool registry and the desktop tools' rules,
//! self-correction of tool results, context encoding and permission handling.

pub mod text;
pub mod cron;
pub mod datetime;
pub mod schedule;
pub mod store;
pub mod events;
pub mod self_correct;
pub mod tool;
pub mod input;
pub mod screenshot;
pub mod process;
pub mod window;
pub mod toon;
pub mod auth;
pub mod lineage;
pub mod gateway;
pub mod telegram;
pub mod agent_run;
pub mod models;
pub mod scheduler;
pub mod api;
pub mod html;
pub mod shell;
pub mod browser;
pub mod registry;
pub mod audit;
pub mod table;
pub mod gateway_service;
