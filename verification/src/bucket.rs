pub mod pq;
