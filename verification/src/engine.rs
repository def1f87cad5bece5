pub mod andor;
