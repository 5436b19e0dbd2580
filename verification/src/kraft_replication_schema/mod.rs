pub mod command_type;
