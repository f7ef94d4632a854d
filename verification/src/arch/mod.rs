pub mod sm83;
