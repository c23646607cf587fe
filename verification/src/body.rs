//! The response body: empty, literal bytes, or a chunked stream over an
//! opened file, optionally capped to a byte count.

use vstd::prelude::*;

use crate::fs::{FileExt, FsError};

verus! {

/// A response body. A `Stream` yields the file's bytes from its current
/// position in chunks of at most `chunk_size` bytes, stopping at end of file
/// or after `limit` bytes when one is set.
pub enum ResponseBody<F> {
    Empty,
    Bytes(Vec<u8>),
    Stream { file: F, chunk_size: usize, limit: Option<u64> },
}

/// The bytes a capped stream over `file` stands for.
pub open spec fn stream_bytes<F: FileExt>(file: F, limit: Option<u64>) -> Seq<u8> {
    let c = file.contents();
    let start = if file.pos() < 0 || file.pos() > c.len() {
        c.len() as int
    } else {
        file.pos()
    };
    let avail = c.len() - start;
    let n = match limit {
        Option::None => avail,
        Option::Some(l) => if l <= avail {
            l as int
        } else {
            avail
        },
    };
    c.subrange(start, start + n)
}

impl<F: FileExt> ResponseBody<F> {
    /// The bytes this body stands for.
    pub open spec fn bytes_model(&self) -> Seq<u8> {
        match self {
            ResponseBody::Empty => Seq::empty(),
            ResponseBody::Bytes(v) => v@,
            ResponseBody::Stream { file, chunk_size, limit } => stream_bytes(*file, *limit),
        }
    }

    /// Whether reading this body out cannot fail.
    pub open spec fn reliable(&self) -> bool {
        match self {
            ResponseBody::Stream { file, chunk_size, limit } => file.infallible() && *chunk_size
                > 0,
            _ => true,
        }
    }

    /// Read the whole body into memory.
    pub fn collect(self) -> (r: Result<Vec<u8>, FsError>)
        requires
            self matches ResponseBody::Stream { file, chunk_size, limit } ==> chunk_size > 0,
        ensures
            self.reliable() ==> r is Ok,
            r matches Ok(v) ==> v@ == self.bytes_model(),
    {
        match self {
            ResponseBody::Empty => Ok(Vec::new()),
            ResponseBody::Bytes(v) => Ok(v),
            ResponseBody::Stream { mut file, chunk_size, limit } => {
                let ghost model = stream_bytes(file, limit);
                let ghost was_infallible = file.infallible();
                let mut out: Vec<u8> = Vec::new();
                let mut remaining: Option<u64> = limit;
                let mut done = false;
                while !done
                    invariant
                        chunk_size > 0,
                        file.infallible() == was_infallible,
                        self.reliable() ==> was_infallible,
                        out@ + stream_bytes(file, remaining) == model,
                        done ==> stream_bytes(file, remaining) =~= Seq::<u8>::empty(),
                    decreases
                            stream_bytes(file, remaining).len() + (if done {
                                0int
                            } else {
                                1int
                            }),
                {
                    let max: usize = match remaining {
                        Option::None => chunk_size,
                        Option::Some(l) => {
                            if l < chunk_size as u64 {
                                l as usize
                            } else {
                                chunk_size
                            }
                        },
                    };
                    if max == 0 {
                        proof {
                            assert(stream_bytes(file, remaining) =~= Seq::<u8>::empty());
                        }
                        done = true;
                    } else {
                        let ghost pre_file = file;
                        let ghost pre_rem = remaining;
                        let chunk = match file.read_chunk(max) {
                            Ok(chunk) => chunk,
                            Err(e) => {
                                return Err(e);
                            },
                        };
                        if chunk.len() == 0 {
                            proof {
                                assert(stream_bytes(file, remaining) =~= Seq::<u8>::empty());
                            }
                            done = true;
                        } else {
                            let n = chunk.len();
                            proof {
                                if let Option::Some(l) = pre_rem {
                                    assert(n <= l);
                                }
                            }
                            remaining = match remaining {
                                Option::None => None,
                                Option::Some(l) => Some(l - n as u64),
                            };
                            let mut chunk = chunk;
                            out.append(&mut chunk);
                            proof {
                                assert(stream_bytes(file, remaining).len() == stream_bytes(
                                    pre_file,
                                    pre_rem,
                                ).len() - n);
                                assert(out@ + stream_bytes(file, remaining) =~= model);
                            }
                        }
                    }
                }
                Ok(out)
            },
        }
    }
}

} // verus!
