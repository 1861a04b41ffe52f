pub mod clock;
pub mod progress;
pub mod records;
pub mod preconfirmed;
pub mod feeder_laws;
