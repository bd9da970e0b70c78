pub mod auth;
pub mod network;
pub mod text;
pub mod web;
pub mod webapi;
