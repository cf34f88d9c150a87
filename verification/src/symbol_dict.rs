//! Symbol dictionaries (ITU T.88 6.5, 7.4.2).

use vstd::prelude::*;
use crate::bytes::{be_u16, be_u32, read_u16_be, read_u32_be};
use crate::image::{ImageView, Jbig2Image};

verus! {

/// The value of an optional glyph.
pub open spec fn glyph_view(g: Option<Jbig2Image>) -> Option<ImageView> {
    match g {
        Some(img) => Some(img@),
        None => None,
    }
}

/// The values of a list of optional glyphs.
pub open spec fn glyphs_view(gs: Seq<Option<Jbig2Image>>) -> Seq<Option<ImageView>> {
    gs.map_values(|g: Option<Jbig2Image>| glyph_view(g))
}

pub proof fn lemma_glyphs_view_push(s: Seq<Option<Jbig2Image>>, g: Option<Jbig2Image>)
    ensures
        glyphs_view(s.push(g)) == glyphs_view(s).push(glyph_view(g)),
{
    assert(glyphs_view(s.push(g)) =~= glyphs_view(s).push(glyph_view(g)));
}

/// A copy of an optional glyph.
fn copy_glyph(g: &Option<Jbig2Image>) -> (r: Option<Jbig2Image>)
    ensures
        glyph_view(r) == glyph_view(*g),
{
    match g {
        Some(img) => Some(img.duplicate()),
        None => None,
    }
}

/// An array of glyph bitmaps; an empty slot holds `None`.
#[derive(Debug, Clone)]
pub struct SymbolDict {
    pub glyphs: Vec<Option<Jbig2Image>>,
}

impl View for SymbolDict {
    type V = Seq<Option<ImageView>>;

    open spec fn view(&self) -> Seq<Option<ImageView>> {
        glyphs_view(self.glyphs@)
    }
}

/// The glyphs of the dictionaries `ds`, one after the other.
pub open spec fn cat_view(ds: Seq<&SymbolDict>) -> Seq<Option<ImageView>>
    decreases ds.len(),
{
    if ds.len() == 0 {
        Seq::empty()
    } else {
        cat_view(ds.drop_last()) + ds.last()@
    }
}

/// The glyphs with numbers below `k` whose export flag is set, in order; numbers below
/// the size of `input` refer to `input`, the others to `new_syms`.
pub open spec fn export_view(
    input: Seq<Option<ImageView>>,
    new_syms: Seq<Option<ImageView>>,
    flags: Seq<bool>,
    k: int,
) -> Seq<Option<ImageView>>
    decreases k,
{
    if k <= 0 {
        Seq::empty()
    } else {
        let i = k - 1;
        let rest = export_view(input, new_syms, flags, i);
        if i < flags.len() && flags[i] {
            rest.push(if i < input.len() { input[i] } else { new_syms[i - input.len()] })
        } else {
            rest
        }
    }
}

impl SymbolDict {
    /// At most `u32::MAX` symbols.
    pub open spec fn wf(&self) -> bool {
        self.glyphs@.len() <= u32::MAX
    }

    /// A dictionary of `n` empty slots.
    pub fn new(n: u32) -> (d: Self)
        ensures
            d.wf(),
            d.glyphs@.len() == n,
            forall|i: int| 0 <= i < n ==> d.glyphs@[i] is None,
    {
        let mut glyphs: Vec<Option<Jbig2Image>> = Vec::new();
        let mut i: u32 = 0;
        while i < n
            invariant
                i <= n,
                glyphs@.len() == i,
                forall|j: int| 0 <= j < i ==> glyphs@[j] is None,
            decreases n - i,
        {
            glyphs.push(None);
            i += 1;
        }
        SymbolDict { glyphs }
    }

    /// Number of symbols.
    pub fn n_symbols(&self) -> (n: u32)
        requires
            self.wf(),
        ensures
            n == self.glyphs@.len(),
    {
        self.glyphs.len() as u32
    }

    /// The glyph with number `id`; `None` for an empty slot or an unknown number.
    pub fn glyph(&self, id: u32) -> (g: Option<&Jbig2Image>)
        ensures
            id < self.glyphs@.len() ==> g == match self.glyphs@[id as int] {
                Some(img) => Some(&img),
                None => None::<&Jbig2Image>,
            },
            id >= self.glyphs@.len() ==> g is None,
    {
        if (id as usize) < self.glyphs.len() {
            match &self.glyphs[id as usize] {
                Some(img) => Some(img),
                None => None,
            }
        } else {
            None
        }
    }

    /// Put `image` into slot `id`; no effect for an unknown number.
    pub fn set_glyph(&mut self, id: u32, image: Jbig2Image)
        ensures
            id < old(self).glyphs@.len() ==> final(self).glyphs@ == old(self).glyphs@.update(
                id as int,
                Some(image),
            ),
            id >= old(self).glyphs@.len() ==> final(self).glyphs@ == old(self).glyphs@,
    {
        if (id as usize) < self.glyphs.len() {
            self.glyphs.set(id as usize, Some(image));
        }
    }

    /// The glyphs of all of `dicts`, one dictionary after the other.
    pub fn cat(dicts: &[&SymbolDict]) -> (r: Self)
        ensures
            r@ == cat_view(dicts@),
    {
        let mut result = SymbolDict { glyphs: Vec::new() };
        let mut k: usize = 0;
        while k < dicts.len()
            invariant
                k <= dicts@.len(),
                result@ == cat_view(dicts@.take(k as int)),
            decreases dicts@.len() - k,
        {
            let dict = dicts[k];
            let ghost before = result@;
            let mut j: usize = 0;
            while j < dict.glyphs.len()
                invariant
                    j <= dict.glyphs@.len(),
                    result@ == before + dict@.take(j as int),
                decreases dict.glyphs@.len() - j,
            {
                let g = copy_glyph(&dict.glyphs[j]);
                let ghost raw = result.glyphs@;
                result.glyphs.push(g);
                proof {
                    lemma_glyphs_view_push(raw, g);
                    assert(dict@.take(j + 1) =~= dict@.take(j as int).push(dict@[j as int]));
                    assert(result@ =~= before + dict@.take(j + 1));
                }
                j += 1;
            }
            proof {
                assert(dict@.take(dict.glyphs@.len() as int) =~= dict@);
                assert(dicts@.take(k + 1).drop_last() =~= dicts@.take(k as int));
            }
            k += 1;
        }
        proof {
            assert(dicts@.take(dicts@.len() as int) =~= dicts@);
        }
        result
    }

    /// The exported symbols (6.5.10): input symbols then new symbols, keeping those whose
    /// export flag is set; a symbol without a flag is not exported.
    pub fn export(input_syms: &SymbolDict, new_syms: &SymbolDict, export_flags: &[bool]) -> (r: Self)
        requires
            input_syms.glyphs@.len() + new_syms.glyphs@.len() <= u32::MAX,
        ensures
            r@ == export_view(
                input_syms@,
                new_syms@,
                export_flags@,
                (input_syms.glyphs@.len() + new_syms.glyphs@.len()) as int,
            ),
    {
        let n_in = input_syms.glyphs.len();
        let total = n_in + new_syms.glyphs.len();
        let mut result: Vec<Option<Jbig2Image>> = Vec::new();
        let mut i: usize = 0;
        while i < total
            invariant
                i <= total,
                n_in == input_syms.glyphs@.len(),
                total == n_in + new_syms.glyphs@.len(),
                glyphs_view(result@) == export_view(input_syms@, new_syms@, export_flags@, i as int),
            decreases total - i,
        {
            if i < export_flags.len() && export_flags[i] {
                let g = if i < n_in {
                    copy_glyph(&input_syms.glyphs[i])
                } else {
                    copy_glyph(&new_syms.glyphs[i - n_in])
                };
                let ghost before = result@;
                result.push(g);
                proof {
                    lemma_glyphs_view_push(before, g);
                }
            }
            i += 1;
        }
        SymbolDict { glyphs: result }
    }
}

/// Symbol dictionary segment parameters (7.4.2.1).
#[derive(Debug, Clone)]
pub struct SymbolDictParams {
    pub sdhuff: bool,
    pub sdrefagg: bool,
    pub sdtemplate: u8,
    pub sdrtemplate: u8,
    pub sdat: [i8; 8],
    pub sdrat: [i8; 4],
    pub sdnuminsyms: u32,
    pub sdnumnewsyms: u32,
    pub sdnumexsyms: u32,
}

/// Number of bytes of adaptive template positions for the flags `flags` (7.4.2.1.2).
pub open spec fn sdat_len(flags: u16) -> int {
    if flags & 1 != 0 {
        0
    } else if (flags >> 10u16) & 3 == 0 {
        8
    } else {
        2
    }
}

/// Number of bytes of refinement adaptive template positions (7.4.2.1.3).
pub open spec fn sdrat_len(flags: u16) -> int {
    if (flags >> 1u16) & 1 != 0 && (flags >> 12u16) & 1 == 0 {
        4
    } else {
        0
    }
}

impl SymbolDictParams {
    /// Parse the symbol dictionary flags, adaptive template positions and symbol counts;
    /// `None` when `data` is too short. SDNUMINSYMS is left 0 for the caller to set.
    pub fn parse(data: &[u8]) -> (r: Option<(Self, usize)>)
        ensures
            ({
                let d = data@;
                let flags = be_u16(d, 0);
                let off = 2 + sdat_len(flags) + sdrat_len(flags);
                if d.len() < 10 || d.len() < off + 8 {
                    r is None
                } else {
                    r matches Some((p, n)) && {
                        &&& n == off + 8
                        &&& p.sdhuff == (flags & 1 != 0)
                        &&& p.sdrefagg == ((flags >> 1u16) & 1 != 0)
                        &&& p.sdtemplate == ((flags >> 10u16) & 3) as u8
                        &&& p.sdrtemplate == ((flags >> 12u16) & 1) as u8
                        &&& forall|i: int| 0 <= i < 8 ==> p.sdat[i] == if i < sdat_len(flags) {
                            d[2 + i] as i8
                        } else {
                            0i8
                        }
                        &&& forall|i: int| 0 <= i < 4 ==> p.sdrat[i] == if i < sdrat_len(flags) {
                            d[2 + sdat_len(flags) + i] as i8
                        } else {
                            0i8
                        }
                        &&& p.sdnuminsyms == 0
                        &&& p.sdnumexsyms == be_u32(d, off)
                        &&& p.sdnumnewsyms == be_u32(d, off + 4)
                    }
                }
            }),
    {
        if data.len() < 10 {
            return None;
        }
        let flags = read_u16_be(data, 0);
        let sdhuff = flags & 1 != 0;
        let sdrefagg = (flags >> 1u16) & 1 != 0;
        let sdtemplate = ((flags >> 10u16) & 3) as u8;
        let sdrtemplate = ((flags >> 12u16) & 1) as u8;
        assert(((flags >> 10u16) & 3) < 4 && ((flags >> 12u16) & 1) < 2) by (bit_vector);
        let mut offset: usize = 2;
        let mut sdat = [0i8; 8];
        if !sdhuff {
            let n: usize = if sdtemplate == 0 { 8 } else { 2 };
            if data.len() < offset + n {
                return None;
            }
            let mut i: usize = 0;
            while i < n
                invariant
                    n <= 8,
                    offset == 2,
                    offset + n <= data@.len(),
                    i <= n,
                    forall|j: int| 0 <= j < i ==> sdat[j] == data@[2 + j] as i8,
                    forall|j: int| i <= j < 8 ==> sdat[j] == 0i8,
                decreases n - i,
            {
                sdat[i] = data[offset + i] as i8;
                i += 1;
            }
            offset += n;
        }
        let mut sdrat = [0i8; 4];
        if sdrefagg && sdrtemplate == 0 {
            if data.len() < offset + 4 {
                return None;
            }
            let mut i: usize = 0;
            while i < 4
                invariant
                    offset + 4 <= data@.len(),
                    offset <= 10,
                    i <= 4,
                    forall|j: int| 0 <= j < i ==> sdrat[j] == data@[offset + j] as i8,
                    forall|j: int| i <= j < 4 ==> sdrat[j] == 0i8,
                decreases 4 - i,
            {
                sdrat[i] = data[offset + i] as i8;
                i += 1;
            }
            offset += 4;
        }
        if data.len() < offset + 8 {
            return None;
        }
        let sdnumexsyms = read_u32_be(data, offset);
        offset += 4;
        let sdnumnewsyms = read_u32_be(data, offset);
        offset += 4;
        Some((
            SymbolDictParams {
                sdhuff,
                sdrefagg,
                sdtemplate,
                sdrtemplate,
                sdat,
                sdrat,
                sdnuminsyms: 0,
                sdnumnewsyms,
                sdnumexsyms,
            },
            offset,
        ))
    }
}

} // verus!
