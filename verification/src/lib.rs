//! The decisions of tv-shell, a shell for a box under a television.
//!
//! Three programs are made of them. A daemon on the box follows the compositor
//! ([`hyprland`], [`workspaces`]), changes display modes ([`display_mode`],
//! [`display_change`]), drives the television over HDMI-CEC ([`cec`],
//! [`cec_worker`], [`display_owner`]), wakes streaming hosts ([`wol`]) and counts
//! what happens ([`metrics`], [`shell_state`]). A sidecar on a streaming host
//! guards its power ([`host`], [`power`]). A web panel shows and steers all of it:
//! who may use it and from which configuration ([`auth`], [`config`]), which
//! surfaces it has ([`capabilities`], [`routes`]), its settings ([`settings`]) and
//! its pages ([`display_page`], [`ipc_console`], [`network`], [`processes`],
//! [`recovery`], [`remote`]).
//!
//! Sockets, files, clocks, processes and floating point lie outside. A function
//! takes what they gave as plain values and says what is to be done; its contract
//! says exactly that, over the models in [`text`], [`json`], [`html`] and
//! [`net_addr`]. What holds over several calls is stated by proof functions whose
//! names begin with `law_`.

pub mod auth;
pub mod capabilities;
pub mod cec;
pub mod cec_worker;
pub mod config;
pub mod display_change;
pub mod display_mode;
pub mod display_owner;
pub mod display_page;
pub mod host;
pub mod html;
pub mod hyprland;
pub mod ipc_console;
pub mod json;
pub mod metrics;
pub mod net_addr;
pub mod network;
pub mod power;
pub mod processes;
pub mod recovery;
pub mod remote;
pub mod reply;
pub mod routes;
pub mod settings;
pub mod shell_state;
pub mod text;
pub mod wol;
pub mod workspaces;
