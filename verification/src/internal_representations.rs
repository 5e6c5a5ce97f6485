pub mod gast;
