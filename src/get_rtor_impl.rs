pub mod bifunrtorimpl;
pub mod lazyclone;
pub mod comptime;
pub mod levelmap;
pub mod funrtorimpl;
pub mod rtor;
pub mod srtorimpl;
