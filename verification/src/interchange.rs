//! The interchange vocabulary shared with the persistence tools around the
//! engine: the checkpoint file formats with their extensions, and the plain
//! records in which structural genes travel.

use crate::gene_pool::Connection;
use vstd::string::StringSliceAdditionalSpecFns;
use vstd::prelude::*;

verus! {

/// A checkpoint file format.
#[derive(Clone, Copy, Debug, PartialEq, Eq, Structural)]
pub enum FileType {
    PrettyJSON,
    CompactJSON,
    Bincode,
}

impl FileType {
    /// The file extension of each format.
    pub open spec fn spec_ext(self) -> Seq<char> {
        match self {
            FileType::PrettyJSON => ".json"@,
            FileType::CompactJSON => ".cjson"@,
            FileType::Bincode => ".bin"@,
        }
    }

    /// The extension written after checkpoint file names.
    pub fn to_ext(&self) -> (r: &'static str)
        ensures
            r@ == self.spec_ext(),
    {
        match self {
            FileType::PrettyJSON => ".json",
            FileType::CompactJSON => ".cjson",
            FileType::Bincode => ".bin",
        }
    }

    /// The bytes of each format's bare extension.
    pub open spec fn spec_ext_bytes(self) -> Seq<u8> {
        match self {
            FileType::PrettyJSON => seq![106u8, 115u8, 111u8, 110u8],
            FileType::CompactJSON => seq![99u8, 106u8, 115u8, 111u8, 110u8],
            FileType::Bincode => seq![98u8, 105u8, 110u8],
        }
    }

    /// Recognise a format from a bare extension; anything else is refused.
    pub fn from_ext(ext: &str) -> (r: Result<FileType, &'static str>)
        ensures
            ext.spec_bytes() == FileType::PrettyJSON.spec_ext_bytes() ==> r == Ok::<
                FileType,
                &'static str,
            >(FileType::PrettyJSON),
            ext.spec_bytes() == FileType::CompactJSON.spec_ext_bytes() ==> r == Ok::<
                FileType,
                &'static str,
            >(FileType::CompactJSON),
            ext.spec_bytes() == FileType::Bincode.spec_ext_bytes() ==> r == Ok::<
                FileType,
                &'static str,
            >(FileType::Bincode),
            ext.spec_bytes() != FileType::PrettyJSON.spec_ext_bytes() && ext.spec_bytes()
                != FileType::CompactJSON.spec_ext_bytes() && ext.spec_bytes()
                != FileType::Bincode.spec_ext_bytes() ==> r is Err,
    {
        let json: [u8; 4] = [106u8, 115u8, 111u8, 110u8];
        let cjson: [u8; 5] = [99u8, 106u8, 115u8, 111u8, 110u8];
        let bin: [u8; 3] = [98u8, 105u8, 110u8];
        proof {
            assert(json@ =~= FileType::PrettyJSON.spec_ext_bytes());
            assert(cjson@ =~= FileType::CompactJSON.spec_ext_bytes());
            assert(bin@ =~= FileType::Bincode.spec_ext_bytes());
        }
        if bytes_equal(ext.as_bytes(), json.as_slice()) {
            Ok(FileType::PrettyJSON)
        } else if bytes_equal(ext.as_bytes(), cjson.as_slice()) {
            Ok(FileType::CompactJSON)
        } else if bytes_equal(ext.as_bytes(), bin.as_slice()) {
            Ok(FileType::Bincode)
        } else {
            Err("Unknown file extension")
        }
    }
}

/// Byte-for-byte equality of two slices.
fn bytes_equal(a: &[u8], b: &[u8]) -> (r: bool)
    ensures
        r == (a@ == b@),
{
    if a.len() != b.len() {
        proof {
            assert(a@.len() != b@.len());
        }
        return false;
    }
    let n = a.len();
    let mut i: usize = 0;
    while i < n
        invariant
            n == a@.len(),
            n == b@.len(),
            i <= n,
            forall|j: int| 0 <= j < i ==> a@[j] == b@[j],
        decreases n - i,
    {
        if a[i] != b[i] {
            return false;
        }
        i = i + 1;
    }
    proof {
        assert(a@ =~= b@);
    }
    true
}

/// A pool connection as it travels in checkpoints.
#[derive(Clone, Copy, Debug, PartialEq, Eq, Structural)]
pub struct PrintableConnection {
    pub innovation: u64,
    pub from: u64,
    pub to: u64,
}

impl PrintableConnection {
    /// The interchange record of a pool connection.
    pub fn of_connection(c: &Connection) -> (r: PrintableConnection)
        ensures
            r.innovation == c.innovation,
            r.from == c.from,
            r.to == c.to,
    {
        PrintableConnection {
            innovation: c.innovation as u64,
            from: c.from as u64,
            to: c.to as u64,
        }
    }
}

/// A pool node's kind as it travels in checkpoints.
#[derive(Clone, Copy, Debug, PartialEq, Eq, Structural)]
pub enum PrintableNodeType {
    Input(usize),
    Hidden,
    Output(usize),
}

} // verus!
