pub mod semaphore;
