pub mod gb;
