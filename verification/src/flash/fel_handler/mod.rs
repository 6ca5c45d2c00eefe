pub mod bootstrap;
