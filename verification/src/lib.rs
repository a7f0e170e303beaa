//! A sliding-window rate limiter: at most `count` events in any trailing
//! `period`, decided one timestamp at a time.

pub mod clock;
pub mod limit;
pub mod limiter;
pub mod ring;
pub mod window;

pub use limit::RateLimit;
pub use limiter::RateLimiter;
pub use ring::BoundedBuffer;
