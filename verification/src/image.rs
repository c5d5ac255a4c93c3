//! Pitched device images and the host <-> device copies that fill and read
//! them.
//!
//! An image is `height` rows of `width` pixels, each pixel `num_samples`
//! samples of `sample_bytes` bytes. On the device, row `r` starts at byte
//! address `data + r * line_step`; the allocator may pad rows, so
//! `line_step` can exceed the bytes of a row. On the host the rows lie
//! back to back.
//!
//! Copies are described as a list of [`Transfer`]s that the caller runs in
//! order, each one copying a range of host samples to or from consecutive
//! device bytes.
use vstd::prelude::*;

verus! {

/// Width and height of an image, as the NPP image functions take them.
pub struct NppiSize {
    pub width: i32,
    pub height: i32,
}

/// Geometry of a device image.
#[derive(Clone, Copy)]
pub struct Image {
    pub width: u32,
    pub height: u32,
    /// Line step in bytes
    pub line_step: i32,
    /// Device address of the first row.
    pub data: u64,
    /// Samples per pixel (the channel count).
    pub num_samples: usize,
    /// Bytes per sample.
    pub sample_bytes: usize,
}

/// One copy between host and device: host samples
/// `host_start..host_end` and the device bytes starting at `device_addr`.
pub struct Transfer {
    pub host_start: usize,
    pub host_end: usize,
    pub device_addr: u64,
}

impl Image {
    /// Samples in one row.
    pub open spec fn row_samples(self) -> int {
        self.width * self.num_samples
    }

    /// Bytes of one row, without padding.
    pub open spec fn row_bytes(self) -> int {
        self.width * self.num_samples * self.sample_bytes
    }

    /// Samples of the whole image on the host, rows back to back.
    pub open spec fn host_samples(self) -> int {
        self.width * self.height * self.num_samples
    }

    /// Whether device rows are padded: the line step differs from the bytes
    /// of a row.
    pub open spec fn padded(self) -> bool {
        self.row_bytes() != (self.line_step as usize) as int
    }

    /// Device address of row `row`.
    pub open spec fn row_addr(self, row: int) -> int {
        self.data + row * (self.line_step as u64)
    }

    /// The copy of row `row`: its host samples and its device address.
    pub open spec fn row_transfer(self, row: int) -> Transfer {
        Transfer {
            host_start: (row * self.row_samples()) as usize,
            host_end: ((row + 1) * self.row_samples()) as usize,
            device_addr: self.row_addr(row) as u64,
        }
    }

    /// One copy per row, row 0 first.
    pub open spec fn row_transfers(self) -> Seq<Transfer> {
        Seq::new(self.height as nat, |row: int| self.row_transfer(row))
    }

    /// The row addresses all fit in 64 bits.
    pub open spec fn rows_addressable(self) -> bool {
        self.height > 0 ==> self.row_addr(self.height - 1) <= u64::MAX
    }

    /// The copies that upload `data_len` host samples: one per row where rows
    /// are padded, else a single copy of all of them.
    pub open spec fn upload_plan(self, data_len: nat) -> Seq<Transfer> {
        if self.padded() {
            self.row_transfers()
        } else {
            seq![Transfer { host_start: 0, host_end: data_len as usize, device_addr: self.data }]
        }
    }

    /// The copies that download the image into a host buffer of
    /// `host_samples` samples: one per row where rows are padded, else a
    /// single copy.
    pub open spec fn download_plan(self) -> Seq<Transfer> {
        if self.padded() {
            self.row_transfers()
        } else {
            seq![
                Transfer {
                    host_start: 0,
                    host_end: self.host_samples() as usize,
                    device_addr: self.data,
                },
            ]
        }
    }

    /// Number of samples the allocation holds: the line step (taken as
    /// unsigned) times the height, in bytes, divided by the bytes of a
    /// sample.
    pub fn len(&self) -> (n: usize)
        requires
            (self.line_step as u32) * self.height <= u32::MAX,
            self.sample_bytes > 0,
        ensures
            n == ((self.line_step as u32) * self.height) / (self.sample_bytes as int),
    {
        ((self.line_step as u32) * self.height) as usize / self.sample_bytes
    }

    /// Bytes of the pitched allocation: line step times height.
    pub fn device_mem_usage(&self) -> (n: usize)
        requires
            self.line_step >= 0,
            self.line_step * self.height <= usize::MAX,
        ensures
            n == self.line_step * self.height,
    {
        (self.line_step as usize) * (self.height as usize)
    }

    /// The device address of the image.
    pub fn device_ptr(&self) -> (p: &u64)
        ensures
            *p == self.data,
    {
        &self.data
    }

    /// The device address of the image, to be replaced.
    pub fn device_ptr_mut(&mut self) -> (p: &mut u64)
        ensures
            *p == old(self).data,
            final(self).data == *final(p),
            final(self).width == old(self).width,
            final(self).height == old(self).height,
            final(self).line_step == old(self).line_step,
            final(self).num_samples == old(self).num_samples,
            final(self).sample_bytes == old(self).sample_bytes,
    {
        &mut self.data
    }

    /// The image size as NPP takes it; each dimension converted as Rust's
    /// `as i32` does.
    pub fn size(&self) -> (s: NppiSize)
        ensures
            s.width == self.width as i32,
            s.height == self.height as i32,
    {
        NppiSize { width: self.width as i32, height: self.height as i32 }
    }

    /// Whether device rows are padded, that is whether a row's bytes differ
    /// from the line step.
    pub fn has_padding(&self) -> (b: bool)
        requires
            self.row_samples() <= usize::MAX,
            self.row_bytes() <= usize::MAX,
        ensures
            b == self.padded(),
    {
        proof {
            vstd::arithmetic::mul::lemma_mul_nonnegative(self.width as int, self.num_samples as int);
        }
        let row = (self.width as usize) * self.num_samples;
        (row * self.sample_bytes) != (self.line_step as usize)
    }

    /// Samples of a host buffer that holds the whole image.
    pub fn host_len(&self) -> (n: usize)
        requires
            self.width * self.height <= usize::MAX,
            self.host_samples() <= usize::MAX,
        ensures
            n == self.host_samples(),
    {
        (self.width as usize) * (self.height as usize) * self.num_samples
    }

    /// One copy per row.
    fn row_plan(&self) -> (plan: Vec<Transfer>)
        requires
            self.row_samples() <= usize::MAX,
            self.height * self.row_samples() <= usize::MAX,
            self.rows_addressable(),
        ensures
            plan@ == self.row_transfers(),
    {
        proof {
            vstd::arithmetic::mul::lemma_mul_nonnegative(self.width as int, self.num_samples as int);
        }
        let h = self.height as usize;
        let row = (self.width as usize) * self.num_samples;
        let step = self.line_step as u64;
        let mut plan: Vec<Transfer> = Vec::new();
        let mut c: usize = 0;
        while c < h
            invariant
                h == self.height,
                row == self.row_samples(),
                step == self.line_step as u64,
                self.height * self.row_samples() <= usize::MAX,
                self.rows_addressable(),
                c <= h,
                plan@.len() == c,
                forall|i: int| 0 <= i < c ==> plan@[i] == self.row_transfer(i),
            decreases h - c,
        {
            proof {
                assert((c + 1) * row <= h * row) by (nonlinear_arith)
                    requires
                        c < h,
                        row >= 0,
                ;
                assert((c + 1) * row == c * row + row) by (nonlinear_arith);
                assert(c * step <= (h - 1) * step) by (nonlinear_arith)
                    requires
                        c <= h - 1,
                ;
            }
            let start = c * row;
            let end = start + row;
            let addr = self.data + (c as u64) * step;
            plan.push(Transfer { host_start: start, host_end: end, device_addr: addr });
            c = c + 1;
        }
        assert(plan@ =~= self.row_transfers());
        plan
    }

    /// The copies that upload `data_len` host samples into the image: one
    /// per row where rows are padded, whatever `data_len` is (the copy of a
    /// row that the host buffer does not hold cannot be run), else one copy
    /// of the whole buffer.
    pub fn copy_from_cpu(&self, data_len: usize) -> (plan: Vec<Transfer>)
        requires
            self.row_samples() <= usize::MAX,
            self.row_bytes() <= usize::MAX,
            self.padded() ==> self.height * self.row_samples() <= usize::MAX,
            self.padded() ==> self.rows_addressable(),
        ensures
            plan@ == self.upload_plan(data_len as nat),
    {
        if self.has_padding() {
            self.row_plan()
        } else {
            let mut plan: Vec<Transfer> = Vec::new();
            plan.push(Transfer { host_start: 0, host_end: data_len, device_addr: self.data });
            assert(plan@ =~= self.upload_plan(data_len as nat));
            plan
        }
    }

    /// The copies that download the image into a host buffer of
    /// [`Image::host_len`] samples: one per row where rows are padded, else
    /// one copy of the whole buffer.
    pub fn copy_to_cpu(&self) -> (plan: Vec<Transfer>)
        requires
            self.row_samples() <= usize::MAX,
            self.row_bytes() <= usize::MAX,
            self.width * self.height <= usize::MAX,
            self.host_samples() <= usize::MAX,
            self.padded() ==> self.rows_addressable(),
        ensures
            plan@ == self.download_plan(),
    {
        let n = self.host_len();
        if self.has_padding() {
            proof {
                assert(self.height * self.row_samples() == self.host_samples()) by (nonlinear_arith);
            }
            self.row_plan()
        } else {
            let mut plan: Vec<Transfer> = Vec::new();
            plan.push(Transfer { host_start: 0, host_end: n, device_addr: self.data });
            assert(plan@ =~= self.download_plan());
            plan
        }
    }
}

/// Device memory after running `t` as an upload of `host` (the host
/// buffer's bytes): the device bytes the transfer covers take the bytes of
/// its host range, the rest keep their value.
pub open spec fn upload_one(
    mem: spec_fn(int) -> u8,
    t: Transfer,
    sample_bytes: int,
    host: Seq<u8>,
) -> spec_fn(int) -> u8 {
    |a: int|
        if t.device_addr <= a < t.device_addr + (t.host_end - t.host_start) * sample_bytes {
            host[t.host_start * sample_bytes + (a - t.device_addr)]
        } else {
            mem(a)
        }
}

/// Device memory after running the uploads of `plan` in order.
pub open spec fn run_upload(
    mem: spec_fn(int) -> u8,
    plan: Seq<Transfer>,
    sample_bytes: int,
    host: Seq<u8>,
) -> spec_fn(int) -> u8
    decreases plan.len(),
{
    if plan.len() == 0 {
        mem
    } else {
        upload_one(run_upload(mem, plan.drop_last(), sample_bytes, host), plan.last(), sample_bytes, host)
    }
}

/// The host buffer `dst` (its bytes) after running `t` as a download from
/// device memory `mem`.
pub open spec fn download_one(
    dst: Seq<u8>,
    t: Transfer,
    sample_bytes: int,
    mem: spec_fn(int) -> u8,
) -> Seq<u8> {
    Seq::new(
        dst.len(),
        |j: int|
            if t.host_start * sample_bytes <= j < t.host_end * sample_bytes {
                mem(t.device_addr + (j - t.host_start * sample_bytes))
            } else {
                dst[j]
            },
    )
}

/// The host buffer `dst` after running the downloads of `plan` in order.
pub open spec fn run_download(
    dst: Seq<u8>,
    plan: Seq<Transfer>,
    sample_bytes: int,
    mem: spec_fn(int) -> u8,
) -> Seq<u8>
    decreases plan.len(),
{
    if plan.len() == 0 {
        dst
    } else {
        download_one(run_download(dst, plan.drop_last(), sample_bytes, mem), plan.last(), sample_bytes, mem)
    }
}

/// Row `c` and row `k` overlap, at offset `o` into row `c`, only when they
/// are the same row, provided rows of `len` units start `step >= len`
/// units apart.
proof fn lemma_row_ranges(c: int, k: int, o: int, len: int, step: int)
    requires
        0 <= c,
        0 <= k,
        0 <= o < len <= step,
    ensures
        (k * step <= c * step + o && c * step + o < k * step + len) <==> c == k,
{
    if c < k {
        vstd::arithmetic::mul::lemma_mul_inequality(c + 1, k, step);
        assert((c + 1) * step == c * step + step) by (nonlinear_arith);
    } else if c > k {
        vstd::arithmetic::mul::lemma_mul_inequality(k + 1, c, step);
        assert((k + 1) * step == k * step + step) by (nonlinear_arith);
    }
}

impl Image {
    /// What the copy of row `r` is, in plain integers.
    proof fn lemma_row_transfer(self, r: int)
        requires
            self.line_step >= 0,
            self.host_samples() <= usize::MAX,
            self.rows_addressable(),
            0 <= r < self.height,
        ensures
            self.row_transfer(r).host_start == r * self.row_samples(),
            self.row_transfer(r).host_end == r * self.row_samples() + self.row_samples(),
            self.row_transfer(r).device_addr == self.data + r * self.line_step,
            self.row_transfer(r).host_start * self.sample_bytes == r * self.row_bytes(),
            (self.row_transfer(r).host_end - self.row_transfer(r).host_start) * self.sample_bytes
                == self.row_bytes(),
            self.row_transfer(r).host_end * self.sample_bytes == r * self.row_bytes()
                + self.row_bytes(),
    {
        let rs = self.row_samples();
        let h = self.height as int;
        let sb = self.sample_bytes as int;
        let ls = self.line_step as int;
        assert(self.line_step as u64 == ls);
        assert(0 <= rs) by (nonlinear_arith)
            requires
                rs == self.width * self.num_samples,
        ;
        assert(h * rs == self.host_samples()) by (nonlinear_arith)
            requires
                rs == self.width * self.num_samples,
                h == self.height,
        ;
        assert(0 <= r * rs && (r + 1) * rs <= h * rs) by (nonlinear_arith)
            requires
                0 <= r < h,
                rs >= 0,
        ;
        assert((r + 1) * rs == r * rs + rs) by (nonlinear_arith);
        assert(0 <= r * ls <= (h - 1) * ls) by (nonlinear_arith)
            requires
                0 <= r <= h - 1,
                ls >= 0,
        ;
        assert((r * rs) * sb == r * (rs * sb)) by (nonlinear_arith);
        assert((r * rs + rs - r * rs) * sb == rs * sb) by (nonlinear_arith);
        assert((r * rs + rs) * sb == r * (rs * sb) + rs * sb) by (nonlinear_arith);
    }

    /// After uploading rows `0..k`, the byte at offset `o` of row `c` holds
    /// the host byte of that position where `c < k`, and is untouched
    /// otherwise.
    proof fn lemma_upload_rows(
        self,
        mem: spec_fn(int) -> u8,
        host: Seq<u8>,
        k: int,
        c: int,
        o: int,
    )
        requires
            self.line_step >= self.row_bytes(),
            self.host_samples() <= usize::MAX,
            self.rows_addressable(),
            0 <= k <= self.height,
            0 <= c < self.height,
            0 <= o < self.row_bytes(),
        ensures
            run_upload(mem, self.row_transfers().take(k), self.sample_bytes as int, host)(
                self.data + c * self.line_step + o,
            ) == if c < k {
                host[c * self.row_bytes() + o]
            } else {
                mem(self.data + c * self.line_step + o)
            },
        decreases k,
    {
        if k > 0 {
            self.lemma_upload_rows(mem, host, k - 1, c, o);
            let plan = self.row_transfers().take(k);
            assert(plan.drop_last() =~= self.row_transfers().take(k - 1));
            assert(plan.last() == self.row_transfer(k - 1));
            self.lemma_row_transfer(k - 1);
            lemma_row_ranges(c, k - 1, o, self.row_bytes(), self.line_step as int);
            if c == k - 1 {
                assert((k - 1) * self.row_bytes() + (self.data + c * self.line_step + o - (
                self.data + (k - 1) * self.line_step)) == c * self.row_bytes() + o);
            }
        }
    }

    /// After downloading rows `0..k` from `mem`, the host byte at offset `o`
    /// of row `c` is the device byte of that position where `c < k`, and
    /// the byte of `dst` otherwise.
    proof fn lemma_download_rows(
        self,
        dst: Seq<u8>,
        mem: spec_fn(int) -> u8,
        k: int,
        c: int,
        o: int,
    )
        requires
            self.line_step >= self.row_bytes(),
            self.host_samples() <= usize::MAX,
            self.rows_addressable(),
            0 <= k <= self.height,
            0 <= c < self.height,
            0 <= o < self.row_bytes(),
            c * self.row_bytes() + o < dst.len(),
        ensures
            run_download(dst, self.row_transfers().take(k), self.sample_bytes as int, mem).len()
                == dst.len(),
            run_download(dst, self.row_transfers().take(k), self.sample_bytes as int, mem)[c
                * self.row_bytes() + o] == if c < k {
                mem(self.data + c * self.line_step + o)
            } else {
                dst[c * self.row_bytes() + o]
            },
        decreases k,
    {
        let j = c * self.row_bytes() + o;
        assert(0 <= c * self.row_bytes()) by (nonlinear_arith)
            requires
                c >= 0,
                self.row_bytes() > o >= 0,
        ;
        if k > 0 {
            self.lemma_download_rows(dst, mem, k - 1, c, o);
            let plan = self.row_transfers().take(k);
            assert(plan.drop_last() =~= self.row_transfers().take(k - 1));
            assert(plan.last() == self.row_transfer(k - 1));
            self.lemma_row_transfer(k - 1);
            lemma_row_ranges(c, k - 1, o, self.row_bytes(), self.row_bytes());
            if c == k - 1 {
                assert(self.data + (k - 1) * self.line_step + (c * self.row_bytes() + o - (k - 1)
                    * self.row_bytes()) == self.data + c * self.line_step + o);
            }
        }
    }
}

/// Uploading a host buffer that holds the whole image with
/// [`Image::copy_from_cpu`]'s copies, then downloading with
/// [`Image::copy_to_cpu`]'s copies into any buffer of that size, gives back
/// the uploaded bytes, whether rows are padded or not, provided each row
/// fits in its line step.
pub proof fn lemma_upload_download_roundtrip(
    img: Image,
    mem: spec_fn(int) -> u8,
    host: Seq<u8>,
    dst: Seq<u8>,
)
    requires
        img.line_step >= img.row_bytes(),
        img.host_samples() <= usize::MAX,
        img.rows_addressable(),
        host.len() == img.host_samples() * img.sample_bytes,
        dst.len() == host.len(),
    ensures
        run_download(
            dst,
            img.download_plan(),
            img.sample_bytes as int,
            run_upload(
                mem,
                img.upload_plan(img.host_samples() as nat),
                img.sample_bytes as int,
                host,
            ),
        ) == host,
{
    let sb = img.sample_bytes as int;
    let rb = img.row_bytes();
    let h = img.height as int;
    let n = host.len() as int;
    assert(0 <= img.row_samples()) by (nonlinear_arith)
        requires
            img.row_samples() == img.width * img.num_samples,
    ;
    assert(n == h * rb) by (nonlinear_arith)
        requires
            n == img.host_samples() * sb,
            img.host_samples() == img.width * img.height * img.num_samples,
            rb == img.width * img.num_samples * sb,
            h == img.height,
    ;
    assert(0 <= rb) by (nonlinear_arith)
        requires
            rb == img.row_samples() * sb,
            img.row_samples() >= 0,
            sb >= 0,
    ;
    let up = run_upload(mem, img.upload_plan(img.host_samples() as nat), sb, host);
    let res = run_download(dst, img.download_plan(), sb, up);
    if img.padded() {
        assert(img.row_transfers().take(h) =~= img.row_transfers());
        assert(res.len() == n) by {
            if n > 0 {
                assert(h > 0 && rb > 0) by (nonlinear_arith)
                    requires
                        n == h * rb,
                        n > 0,
                        h >= 0,
                        rb >= 0,
                ;
                img.lemma_download_rows(dst, up, h, 0, 0);
            } else {
                assert(res.len() == dst.len()) by {
                    lemma_run_download_len(dst, img.download_plan(), sb, up);
                }
            }
        }
        assert forall|j: int| 0 <= j < n implies res[j] == host[j] by {
            let c = j / rb;
            let o = j % rb;
            assert(rb > 0) by (nonlinear_arith)
                requires
                    n == h * rb,
                    0 <= j < n,
                    h >= 0,
            ;
            vstd::arithmetic::div_mod::lemma_fundamental_div_mod(j, rb);
            assert(0 <= c < h) by (nonlinear_arith)
                requires
                    j == rb * c + o,
                    0 <= o < rb,
                    0 <= j < h * rb,
            ;
            assert(c * rb == rb * c) by (nonlinear_arith);
            img.lemma_download_rows(dst, up, h, c, o);
            img.lemma_upload_rows(mem, host, h, c, o);
        }
        assert(res =~= host);
    } else {
        assert(img.line_step == rb);
        let t = Transfer { host_start: 0, host_end: img.host_samples() as usize, device_addr: img.data };
        assert(img.upload_plan(img.host_samples() as nat) == seq![t]);
        assert(img.download_plan() == seq![t]);
        assert(seq![t].drop_last() =~= Seq::<Transfer>::empty());
        assert(run_upload(mem, Seq::<Transfer>::empty(), sb, host) == mem);
        assert(up == upload_one(mem, t, sb, host));
        assert(run_download(dst, Seq::<Transfer>::empty(), sb, up) == dst);
        assert(res == download_one(dst, t, sb, up));
        assert(t.host_end == img.host_samples());
        assert forall|j: int| 0 <= j < n implies res[j] == host[j] by {
            assert(t.host_start * sb == 0) by (nonlinear_arith)
                requires
                    t.host_start == 0,
            ;
            assert(up(img.data + j) == host[j]);
        }
        assert(res =~= host);
    }
}

/// Rows are padded exactly when `width * num_samples * sample_bytes`
/// differs from the line step (read as unsigned); an image whose line step
/// equals its row bytes is never padded and is copied in one piece, both
/// ways. A padded image is copied row by row, row `r` being host samples
/// `r * width * num_samples .. (r + 1) * width * num_samples` at device
/// address `data + r * line_step`, the same rows both ways.
pub proof fn lemma_padding_decides_plans(img: Image, data_len: nat)
    ensures
        img.padded() == (img.width * img.num_samples * img.sample_bytes != (img.line_step as usize) as int),
        !img.padded() ==> img.upload_plan(data_len) == seq![
            Transfer { host_start: 0, host_end: data_len as usize, device_addr: img.data },
        ],
        !img.padded() ==> img.download_plan() == seq![
            Transfer {
                host_start: 0,
                host_end: (img.width * img.height * img.num_samples) as usize,
                device_addr: img.data,
            },
        ],
        img.padded() ==> img.upload_plan(data_len) == img.download_plan(),
        img.padded() ==> img.download_plan().len() == img.height,
        img.padded() ==> forall|r: int|
            0 <= r < img.height ==> #[trigger] img.download_plan()[r] == (Transfer {
                host_start: (r * (img.width * img.num_samples)) as usize,
                host_end: ((r + 1) * (img.width * img.num_samples)) as usize,
                device_addr: (img.data + r * (img.line_step as u64)) as u64,
            }),
{
}

/// Running downloads keeps the host buffer's length.
proof fn lemma_run_download_len(
    dst: Seq<u8>,
    plan: Seq<Transfer>,
    sample_bytes: int,
    mem: spec_fn(int) -> u8,
)
    ensures
        run_download(dst, plan, sample_bytes, mem).len() == dst.len(),
    decreases plan.len(),
{
    if plan.len() > 0 {
        lemma_run_download_len(dst, plan.drop_last(), sample_bytes, mem);
    }
}

} // verus!
