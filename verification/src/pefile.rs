use vstd::prelude::*;
use crate::debug::DebugEntry;
use crate::error::Error;
use crate::exports::ExportTable;
use crate::image::{open_error, Headers, Image, Kind, DIR_BASERELOC, DIR_RESOURCE};
use crate::imports::ImportModule;
use crate::load_config::LoadConfig;
use crate::relocs::{blocks_from, blocks_match, RelocBlock};
use crate::resources::{leaves_from, spec_dir, Leaf};
use crate::rich::{Rich, RichView};
use crate::security::{certificates_from, Certificate};
use crate::tls::Tls;

verus! {

/// The bytes of an image file, with every directory to be read out of them as values.
///
/// Nothing is checked when the bytes are taken in: each reading validates them anew and
/// fails as the view over them fails.
#[derive(Debug)]
pub struct PeFile {
    pub data: Vec<u8>,
}

impl PeFile {
    /// Whether `image` is a file view over these bytes.
    pub open spec fn views(&self, image: &Image) -> bool {
        image.wf() && image.kind == Kind::File && image.data@ == self.data@
    }

    /// Why these bytes are not an image file, if they are not.
    pub open spec fn spec_error(&self) -> Option<Error> {
        open_error(Kind::File, self.data@)
    }

    /// Takes the bytes of an image file.
    pub fn new(data: Vec<u8>) -> (r: PeFile)
        ensures
            r.data == data,
    {
        PeFile { data }
    }

    /// The file view over the bytes.
    pub fn pefile(&self) -> (r: Result<Image<'_>, Error>)
        ensures
            match r {
                Ok(image) => self.views(&image) && self.spec_error() is None,
                Err(e) => self.spec_error() == Some(e),
            },
    {
        match Image::new(Kind::File, self.data.as_slice()) {
            Ok(image) => {
                proof {
                    image.lemma_wf();
                }
                Ok(image)
            },
            Err(e) => Err(e),
        }
    }

    /// The headers.
    pub fn headers(&self) -> (r: Result<Headers, Error>)
        ensures
            match r {
                Ok(h) => self.spec_error() is None && h.decodes(self.data@),
                Err(e) => self.spec_error() == Some(e),
            },
    {
        match self.pefile() {
            Ok(image) => {
                proof {
                    image.lemma_wf();
                }
                Ok(image.headers)
            },
            Err(e) => Err(e),
        }
    }

    /// The blocks of the base relocation directory in order, each with its page and its
    /// entries, every entry with its type and the address it names.
    pub fn base_relocs(&self) -> (r: Result<Vec<RelocBlock>, Error>)
        ensures
            match self.spec_error() {
                Some(e) => r == Err::<Vec<RelocBlock>, Error>(e),
                None => exists|image: Image|
                    #[trigger] self.views(&image) && match image.spec_directory_bytes(
                        DIR_BASERELOC as int,
                    ) {
                        Err(e) => r == Err::<Vec<RelocBlock>, Error>(e),
                        Ok(bytes) => match blocks_from(bytes, 0) {
                            Err(e) => r == Err::<Vec<RelocBlock>, Error>(e),
                            Ok(blocks) => r matches Ok(read) && blocks_match(bytes, blocks, read@),
                        },
                    },
            },
    {
        let image = match self.pefile() {
            Ok(image) => image,
            Err(e) => {
                return Err(e);
            },
        };
        let r = match image.base_relocs() {
            Ok(relocs) => relocs.blocks(),
            Err(e) => Err(e),
        };
        assert(self.views(&image));
        r
    }

    /// The entries of the debug directory.
    pub fn debug(&self) -> (r: Result<Vec<DebugEntry>, Error>)
        ensures
            match self.spec_error() {
                Some(e) => r == Err::<Vec<DebugEntry>, Error>(e),
                None => exists|image: Image|
                    #[trigger] self.views(&image) && match r {
                        Ok(v) => image.spec_debug() == Ok::<Seq<DebugEntry>, Error>(v@),
                        Err(e) => image.spec_debug() == Err::<Seq<DebugEntry>, Error>(e),
                    },
            },
    {
        let image = match self.pefile() {
            Ok(image) => image,
            Err(e) => {
                return Err(e);
            },
        };
        let r = image.debug();
        assert(self.views(&image));
        r
    }

    /// The export directory, read out whole.
    pub fn exports(&self) -> (r: Result<ExportTable, Error>)
        ensures
            match self.spec_error() {
                Some(e) => r == Err::<ExportTable, Error>(e),
                None => exists|image: Image|
                    #[trigger] self.views(&image) && image.spec_export_table_is(r),
            },
    {
        let image = match self.pefile() {
            Ok(image) => image,
            Err(e) => {
                return Err(e);
            },
        };
        let r = image.export_table();
        assert(self.views(&image));
        r
    }

    /// The import directory, read out whole.
    pub fn imports(&self) -> (r: Result<Vec<ImportModule>, Error>)
        ensures
            match self.spec_error() {
                Some(e) => r == Err::<Vec<ImportModule>, Error>(e),
                None => exists|image: Image|
                    #[trigger] self.views(&image) && image.spec_import_modules_are(r),
            },
    {
        let image = match self.pefile() {
            Ok(image) => image,
            Err(e) => {
                return Err(e);
            },
        };
        let r = image.import_modules();
        assert(self.views(&image));
        r
    }

    /// The import address table directory.
    pub fn iat(&self) -> (r: Result<Vec<u64>, Error>)
        ensures
            match self.spec_error() {
                Some(e) => r == Err::<Vec<u64>, Error>(e),
                None => exists|image: Image|
                    #[trigger] self.views(&image) && match r {
                        Ok(v) => image.spec_iat() == Ok::<Seq<u64>, Error>(v@),
                        Err(e) => image.spec_iat() == Err::<Seq<u64>, Error>(e),
                    },
            },
    {
        let image = match self.pefile() {
            Ok(image) => image,
            Err(e) => {
                return Err(e);
            },
        };
        let r = image.iat();
        assert(self.views(&image));
        r
    }

    /// The load configuration.
    pub fn load_config(&self) -> (r: Result<LoadConfig, Error>)
        ensures
            match self.spec_error() {
                Some(e) => r == Err::<LoadConfig, Error>(e),
                None => exists|image: Image|
                    #[trigger] self.views(&image) && r == image.spec_load_config(),
            },
    {
        let image = match self.pefile() {
            Ok(image) => image,
            Err(e) => {
                return Err(e);
            },
        };
        let r = image.load_config();
        assert(self.views(&image));
        r
    }

    /// Every leaf of the resource tree with its path.
    pub fn resources(&self) -> (r: Result<Vec<Leaf>, Error>)
        ensures
            match self.spec_error() {
                Some(e) => r == Err::<Vec<Leaf>, Error>(e),
                None => exists|image: Image|
                    #[trigger] self.views(&image) && match image.spec_directory_bytes(
                        DIR_RESOURCE as int,
                    ) {
                        Err(e) => r == Err::<Vec<Leaf>, Error>(e),
                        Ok(bytes) => match spec_dir(bytes, 0, 1, 0, 0) {
                            Err(e) => r == Err::<Vec<Leaf>, Error>(e),
                            Ok(root) => match r {
                                Ok(v) => leaves_from(bytes, root, 0, 0, 0) == Ok::<
                                    Seq<Leaf>,
                                    Error,
                                >(v@),
                                Err(e) => leaves_from(bytes, root, 0, 0, 0) == Err::<
                                    Seq<Leaf>,
                                    Error,
                                >(e),
                            },
                        },
                    },
            },
    {
        let image = match self.pefile() {
            Ok(image) => image,
            Err(e) => {
                return Err(e);
            },
        };
        let r = match image.resources() {
            Ok(resources) => resources.leaves(),
            Err(e) => Err(e),
        };
        assert(self.views(&image));
        r
    }

    /// The Rich header.
    pub fn rich_structure(&self) -> (r: Result<Rich, Error>)
        ensures
            match self.spec_error() {
                Some(e) => r == Err::<Rich, Error>(e),
                None => exists|image: Image|
                    #[trigger] self.views(&image) && match r {
                        Ok(rich) => image.spec_rich() == Ok::<RichView, Error>(rich@),
                        Err(e) => image.spec_rich() == Err::<RichView, Error>(e),
                    },
            },
    {
        let image = match self.pefile() {
            Ok(image) => image,
            Err(e) => {
                return Err(e);
            },
        };
        let r = image.rich_structure();
        assert(self.views(&image));
        r
    }

    /// The certificate table.
    pub fn security(&self) -> (r: Result<Vec<Certificate>, Error>)
        ensures
            match self.spec_error() {
                Some(e) => r == Err::<Vec<Certificate>, Error>(e),
                None => exists|image: Image|
                    #[trigger] self.views(&image) && match image.spec_security_range() {
                        Err(e) => r == Err::<Vec<Certificate>, Error>(e),
                        Ok((start, end)) => match r {
                            Ok(v) => certificates_from(self.data@, start as int, end as int)
                                == Ok::<Seq<Certificate>, Error>(v@),
                            Err(e) => certificates_from(self.data@, start as int, end as int)
                                == Err::<Seq<Certificate>, Error>(e),
                        },
                    },
            },
    {
        let image = match self.pefile() {
            Ok(image) => image,
            Err(e) => {
                return Err(e);
            },
        };
        let r = image.security();
        assert(self.views(&image));
        r
    }

    /// The thread local storage directory.
    pub fn tls(&self) -> (r: Result<Tls, Error>)
        ensures
            match self.spec_error() {
                Some(e) => r == Err::<Tls, Error>(e),
                None => exists|image: Image| #[trigger] self.views(&image) && r == image.spec_tls(),
            },
    {
        let image = match self.pefile() {
            Ok(image) => image,
            Err(e) => {
                return Err(e);
            },
        };
        let r = image.tls();
        assert(self.views(&image));
        r
    }
}

} // verus!
