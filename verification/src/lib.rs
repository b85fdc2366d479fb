//! Core of an onion-routing relay node: the route and package data model,
//! the outbound encryption service that layers a caller's payload into a
//! wire-ready package, the inbound routing service that strips one layer
//! and delivers or forwards, and the orchestrator that owns both.

pub mod client_listener;
pub mod collaborators;
pub mod consuming_service;
pub mod cryptde;
pub mod dispatcher;
pub mod hopper;
pub mod launcher;
pub mod laws;
pub mod live_cores_package;
pub mod messages;
pub mod route;
pub mod routing_service;
pub mod wire;
