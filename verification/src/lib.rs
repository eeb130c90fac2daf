//! A verified alias store: the core of a URL-alias (short-link) service.
//!
//! The store keeps a list of token-to-URL records, enforces token
//! uniqueness on every create, generates random tokens, and decides
//! what a redirect request resolves to.  All file handling, locking and
//! HTTP plumbing live outside the library; the library works on plain
//! values and every function in it carries a verified contract.

mod alias;
mod auth;
mod laws;
mod lookup;
mod page;
mod store;
mod token;

pub use alias::Alias;
pub use alias::AliasView;
pub use alias::is_true_literal;
pub use alias::parse_interstitial_flag;
pub use alias::views_of;
pub use auth::AuthError;
pub use auth::access_key_required;
pub use auth::check_access_key;
pub use auth::contains_string;
pub use auth::spec_lines;
pub use auth::split_lines;
pub use auth::string_views;
pub use laws::lemma_create_then_lookup;
pub use laws::lemma_create_unique;
pub use laws::lemma_dedup_first_match;
pub use laws::lemma_distinct_creates_store_all;
pub use laws::lemma_first_match_none_iff;
pub use laws::lemma_first_match_push;
pub use laws::lemma_kept_no_token;
pub use laws::lemma_remove_preserves_unique;
pub use laws::lemma_remove_twice_removes_nothing;
pub use laws::lemma_removed_empty_of_no_token;
pub use laws::lemma_two_creates_one_survivor;
pub use laws::spec_create_all;
pub use lookup::RedirectAction;
pub use lookup::percent_decoded;
pub use page::render_interstitial;
pub use page::spec_substitute;
pub use store::AliasStore;
pub use store::CreateError;
pub use store::contains_token;
pub use store::lemma_dedup_of_unique;
pub use store::lemma_dedup_same_tokens;
pub use store::lemma_dedup_unique;
pub use store::lemma_token_in_push;
pub use store::spec_create;
pub use store::spec_dedup;
pub use store::spec_first_match;
pub use store::spec_kept;
pub use store::spec_removed;
pub use store::token_in;
pub use store::unique_tokens;
pub use token::GENERATION_ATTEMPTS;
pub use token::TOKEN_LENGTH;
pub use token::check_token;
pub use token::generate_token;
pub use token::generated_token_ok;
pub use token::is_alphanumeric_char;
pub use token::lemma_alphanumeric_token_valid;
pub use token::token_valid;
