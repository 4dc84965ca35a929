//! Verified core of the newsroom web site: text handling, article and
//! member listings, headline editing, markup rendering and sign-in rules.
//! The web server around it (routes, templates, database, cookies) reads and
//! writes; everything it decides comes from here.

pub mod text;
pub mod numbers;
pub mod order;
pub mod calendar;
pub mod dates;
pub mod markup;
pub mod authors_to_string;
pub mod article;
pub mod author;
pub mod headlines;
pub mod business_plans;
pub mod page_edit;
pub mod auth;
