pub mod parsechunks;
pub mod pixel;
pub mod readimg;
