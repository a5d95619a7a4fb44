//! The CUDA GPU check: reading what `nvidia-smi` reports, and the driver
//! branch and compute capability that the bundled CUDA runtime needs.
use vstd::prelude::*;
use crate::strings::{chars_of, trim, trim_str, views, join, join_strings};
use crate::numbers::{decimal, is_digit, parse_unsigned, parse_unsigned_range, push_decimal};
use crate::error::AppError;

verus! {

/// Oldest NVIDIA driver branch that runs CUDA 13 libraries.
pub const MIN_CUDA_13_DRIVER_BRANCH: u32 = 580;

/// Lowest compute capability (major * 10 + minor) that CUDA 13 supports.
pub const MIN_CUDA_13_COMPUTE_CAPABILITY: u32 = 75;

/// What `nvidia-smi` says of the first GPU.
pub struct CudaGpuReport {
    pub name: String,
    pub driver_version: String,
    /// Major version times ten plus the first digit of the minor version.
    pub compute_capability: u32,
    pub total_memory_mb: Option<u64>,
}

/// Pieces closed so far and the piece being read, after reading `s`.
pub open spec fn split_scan(s: Seq<char>, sep: char) -> (Seq<Seq<char>>, Seq<char>)
    decreases s.len(),
{
    if s.len() == 0 {
        (seq![], seq![])
    } else {
        let prev = split_scan(s.drop_last(), sep);
        if s.last() == sep {
            (prev.0.push(prev.1), seq![])
        } else {
            (prev.0, prev.1.push(s.last()))
        }
    }
}

/// Every piece between separators, empty ones included, as `str::split`
/// with a character yields them.
pub open spec fn split_all(s: Seq<char>, sep: char) -> Seq<Seq<char>> {
    let scan = split_scan(s, sep);
    scan.0.push(scan.1)
}

pub open spec fn strip_cr(line: Seq<char>) -> Seq<char> {
    if line.len() > 0 && line.last() == '\r' {
        line.drop_last()
    } else {
        line
    }
}

/// The lines of a text as `str::lines` yields them: cut at each `\n`, a
/// `\r` just before it dropped, and no empty line after a final `\n`.
pub open spec fn text_lines(s: Seq<char>) -> Seq<Seq<char>> {
    let pieces = split_all(s, '\n');
    let closed = pieces.drop_last().map_values(|p: Seq<char>| strip_cr(p));
    if pieces.last().len() == 0 {
        closed
    } else {
        closed.push(pieces.last())
    }
}

/// The first line that is not blank.
pub open spec fn first_nonblank(lines: Seq<Seq<char>>) -> Option<Seq<char>>
    decreases lines.len(),
{
    if lines.len() == 0 {
        None
    } else if trim(lines[0]).len() > 0 {
        Some(lines[0])
    } else {
        first_nonblank(lines.drop_first())
    }
}

pub open spec fn trimmed_all(pieces: Seq<Seq<char>>) -> Seq<Seq<char>> {
    pieces.map_values(|p: Seq<char>| trim(p))
}

/// Number of ASCII digits at the start of `s`.
pub open spec fn leading_digits(s: Seq<char>) -> nat
    decreases s.len(),
{
    if s.len() == 0 || !is_digit(s[0]) {
        0
    } else {
        1 + leading_digits(s.drop_first())
    }
}

/// The first run of ASCII digits in `s`.
pub open spec fn first_digit_run(s: Seq<char>) -> Option<Seq<char>>
    decreases s.len(),
{
    if s.len() == 0 {
        None
    } else if is_digit(s[0]) {
        Some(s.take(leading_digits(s) as int))
    } else {
        first_digit_run(s.drop_first())
    }
}

/// The first run of digits read as a number no larger than `max`.
pub open spec fn first_number(s: Seq<char>, max: nat) -> Option<nat> {
    match first_digit_run(s) {
        Some(run) => parse_unsigned(run, max),
        None => None,
    }
}

/// `major.minor` read as major * 10 plus the first digit of minor (0 when
/// it has none), kept to 32 bits.
pub open spec fn compute_capability_of(value: Seq<char>) -> Option<u32> {
    let parts = split_all(trim(value), '.');
    match parse_unsigned(parts[0], u32::MAX as nat) {
        Some(major) => {
            let minor: nat = if parts.len() > 1 && parts[1].len() > 0 && is_digit(parts[1][0]) {
                (parts[1][0] as nat - 48) as nat
            } else {
                0
            };
            Some(((major * 10 + minor) % 0x1_0000_0000) as u32)
        },
        None => None,
    }
}

pub fn split_on(chars: &Vec<char>, sep: char) -> (parts: Vec<String>)
    ensures
        views(parts@) == split_all(chars@, sep),
{
    let mut parts: Vec<String> = Vec::new();
    let mut current = String::new();
    let mut i: usize = 0;
    while i < chars.len()
        invariant
            i <= chars.len(),
            views(parts@) == split_scan(chars@.take(i as int), sep).0,
            current@ == split_scan(chars@.take(i as int), sep).1,
        decreases chars.len() - i,
    {
        let c = chars[i];
        assert(chars@.take(i + 1).drop_last() == chars@.take(i as int));
        if c == sep {
            let ghost before = parts@;
            let done = current;
            current = String::new();
            parts.push(done);
            assert(views(parts@) =~= views(before).push(done@));
        } else {
            current.push(c);
        }
        i = i + 1;
    }
    assert(chars@.take(chars.len() as int) == chars@);
    let ghost before = parts@;
    let ghost last = current@;
    parts.push(current);
    assert(views(parts@) =~= views(before).push(last));
    parts
}

proof fn lemma_split_nonempty(s: Seq<char>, sep: char)
    ensures
        split_all(s, sep).len() >= 1,
{
}

/// The first run of ASCII digits in the text, read as a number no larger
/// than `max`.
fn parse_first_number(value: &str, max: u64) -> (r: Option<u64>)
    ensures
        match first_number(value@, max as nat) {
            Some(v) => r == Some(v as u64),
            None => r is None,
        },
{
    let chars = chars_of(value);
    let mut i: usize = 0;
    assert(chars@.skip(0) == chars@);
    while i < chars.len() && !('0' <= chars[i] && chars[i] <= '9')
        invariant
            i <= chars.len(),
            chars@ == value@,
            first_digit_run(value@) == first_digit_run(chars@.skip(i as int)),
        decreases chars.len() - i,
    {
        assert(chars@.skip(i as int).drop_first() == chars@.skip(i + 1));
        i = i + 1;
    }
    if i == chars.len() {
        assert(chars@.skip(i as int).len() == 0);
        return None;
    }
    let mut j: usize = i;
    while j < chars.len() && '0' <= chars[j] && chars[j] <= '9'
        invariant
            i <= j <= chars.len(),
            leading_digits(chars@.skip(i as int)) == (j - i) + leading_digits(chars@.skip(j as int)),
        decreases chars.len() - j,
    {
        assert(chars@.skip(j as int).drop_first() == chars@.skip(j + 1));
        j = j + 1;
    }
    assert(leading_digits(chars@.skip(j as int)) == 0);
    assert(chars@.skip(i as int).take(j - i) == chars@.subrange(i as int, j as int));
    parse_unsigned_range(&chars, i, j, max)
}

/// The driver branch: the first number in the driver version.
pub fn parse_driver_branch(value: &str) -> (r: Option<u32>)
    ensures
        match first_number(value@, u32::MAX as nat) {
            Some(v) => r == Some(v as u32),
            None => r is None,
        },
{
    match parse_first_number(value, u32::MAX as u64) {
        Some(v) => Some(v as u32),
        None => None,
    }
}

/// The memory in MiB: the first number in the column.
pub fn parse_memory_mb(value: &str) -> (r: Option<u64>)
    ensures
        match first_number(value@, u64::MAX as nat) {
            Some(v) => r == Some(v as u64),
            None => r is None,
        },
{
    parse_first_number(value, u64::MAX)
}

/// Reads `major.minor` as major * 10 plus the first digit of minor.
pub fn parse_compute_capability(value: &str) -> (r: Option<u32>)
    ensures
        r == compute_capability_of(value@),
{
    let trimmed = trim_str(value);
    let chars = chars_of(trimmed.as_str());
    let parts = split_on(&chars, '.');
    proof {
        lemma_split_nonempty(chars@, '.');
    }
    let first = chars_of(parts[0].as_str());
    assert(first@.subrange(0, first.len() as int) == first@);
    let major = match parse_unsigned_range(&first, 0, first.len(), u32::MAX as u64) {
        Some(v) => v,
        None => {
            return None;
        },
    };
    let mut minor: u64 = 0;
    if parts.len() > 1 {
        let second = chars_of(parts[1].as_str());
        if second.len() > 0 && '0' <= second[0] && second[0] <= '9' {
            minor = (second[0] as u32 - 48) as u64;
        }
    }
    let value = (major * 10 + minor) % 0x1_0000_0000;
    Some(value as u32)
}


fn strip_cr_string(line: &str) -> (r: String)
    ensures
        r@ == strip_cr(line@),
{
    let chars = chars_of(line);
    if chars.len() > 0 && chars[chars.len() - 1] == '\r' {
        crate::strings::string_from_range(&chars, 0, chars.len() - 1)
    } else {
        crate::strings::string_from_range(&chars, 0, chars.len())
    }
}

fn is_blank(text: &str) -> (r: bool)
    ensures
        r == (trim(text@).len() == 0),
{
    trim_str(text).as_str().is_empty()
}

/// The first line of the output that is not blank.
pub fn first_nonblank_line(output: &str) -> (r: Option<String>)
    ensures
        match first_nonblank(text_lines(output@)) {
            Some(line) => r matches Some(l) && l@ == line,
            None => r is None,
        },
{
    let chars = chars_of(output);
    let pieces = split_on(&chars, '\n');
    let ghost pv = views(pieces@);
    let ghost lines = text_lines(output@);
    let ghost closed = pv.drop_last().map_values(|p: Seq<char>| strip_cr(p));
    assert(lines == (if pv.last().len() == 0 {
        closed
    } else {
        closed.push(pv.last())
    }));
    let n = pieces.len();
    let mut i: usize = 0;
    assert(lines.skip(0) == lines);
    while i + 1 < n
        invariant
            n == pieces.len(),
            n >= 1,
            i + 1 <= n,
            pv == views(pieces@),
            lines == text_lines(output@),
            closed == pv.drop_last().map_values(|p: Seq<char>| strip_cr(p)),
            lines == (if pv.last().len() == 0 {
                closed
            } else {
                closed.push(pv.last())
            }),
            first_nonblank(lines) == first_nonblank(lines.skip(i as int)),
        decreases n - i,
    {
        assert(closed.len() == n - 1);
        assert(lines.skip(i as int).len() > 0);
        assert(lines.skip(i as int)[0] == lines[i as int]);
        assert(lines[i as int] == strip_cr(pieces@[i as int]@));
        assert(lines.skip(i as int).drop_first() == lines.skip(i + 1));
        let line = strip_cr_string(pieces[i].as_str());
        if !is_blank(line.as_str()) {
            assert(line@ == lines[i as int]);
            assert(first_nonblank(lines.skip(i as int)) == Some(line@));
            return Some(line);
        }
        i = i + 1;
    }
    let last = pieces[n - 1].as_str();
    if last.is_empty() {
        assert(lines.skip(i as int).len() == 0);
        return None;
    }
    assert(closed.len() == n - 1);
    assert(lines.skip(i as int) =~= seq![pv.last()]);
    assert(seq![pv.last()].drop_first() =~= Seq::<Seq<char>>::empty());
    proof {
        reveal_with_fuel(first_nonblank, 2);
    }
    if is_blank(last) {
        None
    } else {
        Some(String::from_str(last))
    }
}

pub open spec fn no_gpu_message() -> Seq<char> {
    "nvidia-smi não retornou nenhuma GPU NVIDIA CUDA."@
}

pub open spec fn unexpected_reply_message(line: Seq<char>) -> Seq<char> {
    "Resposta inesperada do nvidia-smi ao consultar a GPU: "@ + line
}

pub open spec fn unreadable_capability_message(value: Seq<char>) -> Seq<char> {
    "Não consegui interpretar a compute capability da GPU NVIDIA ("@ + value
        + "). Atualize o driver NVIDIA e tente de novo."@
}

pub open spec fn speech_error<T>(r: Result<T, AppError>, message: Seq<char>) -> bool {
    r matches Err(AppError::SpeechEngineUnavailable(m)) && m@ == message
}

fn speech_engine_error(parts: &Vec<&str>) -> (e: AppError)
    ensures
        e matches AppError::SpeechEngineUnavailable(m) && m@ == join(crate::tags::str_views(parts@), seq![]),
{
    let mut text = String::new();
    let mut i: usize = 0;
    while i < parts.len()
        invariant
            i <= parts.len(),
            text@ == join(crate::tags::str_views(parts@).take(i as int), seq![]),
        decreases parts.len() - i,
    {
        assert(crate::tags::str_views(parts@).take(i + 1).drop_last() == crate::tags::str_views(
            parts@,
        ).take(i as int));
        text.append(parts[i]);
        i = i + 1;
        assert(text@ == join(crate::tags::str_views(parts@).take(i as int), seq![]));
    }
    assert(crate::tags::str_views(parts@).take(parts.len() as int) == crate::tags::str_views(
        parts@,
    ));
    AppError::SpeechEngineUnavailable(text)
}

/// Reads the CSV line `name, driver, compute capability, memory` of the
/// first GPU.
pub fn parse_nvidia_smi_output(output: &str) -> (r: Result<CudaGpuReport, AppError>)
    ensures
        match first_nonblank(text_lines(output@)) {
            None => speech_error(r, no_gpu_message()),
            Some(line) => {
                let columns = trimmed_all(split_all(line, ','));
                if columns.len() != 4 {
                    speech_error(r, unexpected_reply_message(line))
                } else {
                    match compute_capability_of(columns[2]) {
                        None => speech_error(r, unreadable_capability_message(columns[2])),
                        Some(cc) => r matches Ok(report) && {
                            &&& report.name@ == columns[0]
                            &&& report.driver_version@ == columns[1]
                            &&& report.compute_capability == cc
                            &&& match first_number(columns[3], u64::MAX as nat) {
                                Some(v) => report.total_memory_mb == Some(v as u64),
                                None => report.total_memory_mb is None,
                            }
                        },
                    }
                }
            },
        },
{
    let line = match first_nonblank_line(output) {
        Some(line) => line,
        None => {
            proof {
                reveal_strlit("nvidia-smi não retornou nenhuma GPU NVIDIA CUDA.");
            }
            return Err(AppError::SpeechEngineUnavailable(
                String::from_str("nvidia-smi não retornou nenhuma GPU NVIDIA CUDA."),
            ));
        },
    };
    let line_chars = chars_of(line.as_str());
    let pieces = split_on(&line_chars, ',');
    let mut columns: Vec<String> = Vec::new();
    let mut i: usize = 0;
    while i < pieces.len()
        invariant
            i <= pieces.len(),
            views(columns@) == trimmed_all(views(pieces@).take(i as int)),
        decreases pieces.len() - i,
    {
        let ghost before = columns@;
        let column = trim_str(pieces[i].as_str());
        columns.push(column);
        assert(views(columns@) =~= views(before).push(trim(pieces@[i as int]@)));
        assert(trimmed_all(views(pieces@).take(i + 1)) =~= trimmed_all(views(pieces@).take(i as int)).push(
            trim(pieces@[i as int]@),
        ));
        i = i + 1;
    }
    assert(views(pieces@).take(pieces.len() as int) == views(pieces@));
    if columns.len() != 4 {
        let mut parts: Vec<&str> = Vec::new();
        parts.push("Resposta inesperada do nvidia-smi ao consultar a GPU: ");
        parts.push(line.as_str());
        proof {
            reveal_strlit("Resposta inesperada do nvidia-smi ao consultar a GPU: ");
            reveal_with_fuel(join, 3);
        }
        return Err(speech_engine_error(&parts));
    }
    let compute_capability = match parse_compute_capability(columns[2].as_str()) {
        Some(v) => v,
        None => {
            let mut parts: Vec<&str> = Vec::new();
            parts.push("Não consegui interpretar a compute capability da GPU NVIDIA (");
            parts.push(columns[2].as_str());
            parts.push("). Atualize o driver NVIDIA e tente de novo.");
            proof {
                reveal_strlit("Não consegui interpretar a compute capability da GPU NVIDIA (");
                reveal_strlit("). Atualize o driver NVIDIA e tente de novo.");
                reveal_with_fuel(join, 4);
            }
            return Err(speech_engine_error(&parts));
        },
    };
    let total_memory_mb = parse_memory_mb(columns[3].as_str());
    let name = String::from_str(columns[0].as_str());
    let driver_version = String::from_str(columns[1].as_str());
    Ok(CudaGpuReport { name, driver_version, compute_capability, total_memory_mb })
}


pub open spec fn memory_text(total_memory_mb: Option<u64>) -> Seq<char> {
    match total_memory_mb {
        Some(mb) => ", VRAM: "@ + decimal(mb as nat) + " MiB"@,
        None => seq![],
    }
}

pub open spec fn capability_text(compute_capability: u32) -> Seq<char> {
    decimal((compute_capability / 10) as nat) + "."@ + decimal((compute_capability % 10) as nat)
}

pub open spec fn driver_unreadable_message(driver: Seq<char>) -> Seq<char> {
    "Não consegui interpretar o driver NVIDIA detectado ("@ + driver
        + "). Atualize o driver NVIDIA e tente de novo."@
}

pub open spec fn driver_too_old_message(driver: Seq<char>) -> Seq<char> {
    "Driver NVIDIA incompatível com o runtime CUDA 13.x deste pacote. Detectado: "@ + driver
        + ". Exigido: ramo R"@ + decimal(MIN_CUDA_13_DRIVER_BRANCH as nat)
        + "+ para executar bibliotecas CUDA 13. Atualize pelo site da NVIDIA e abra o programa novamente."@
}

pub open spec fn capability_too_low_message(name: Seq<char>, compute_capability: u32) -> Seq<char> {
    "GPU NVIDIA incompatível com este pacote CUDA 13.x. Detectada: "@ + name
        + " compute capability "@ + capability_text(compute_capability) + ". Exigido: "@
        + capability_text(MIN_CUDA_13_COMPUTE_CAPABILITY) + "+ (Turing/RTX ou mais nova)."@
}

fn push_capability(text: &mut String, compute_capability: u32)
    ensures
        final(text)@ == old(text)@ + capability_text(compute_capability),
{
    push_decimal(text, (compute_capability / 10) as u64);
    text.push('.');
    push_decimal(text, (compute_capability % 10) as u64);
    proof {
        reveal_strlit(".");
        assert("."@ =~= seq!['.']);
    }
}

impl CudaGpuReport {
    /// One line describing the GPU for logs and error reports.
    pub fn diagnostic_line(&self) -> (r: String)
        ensures
            r@ == "GPU: "@ + self.name@ + ", driver: "@ + self.driver_version@
                + ", compute capability: "@ + capability_text(self.compute_capability)
                + memory_text(self.total_memory_mb),
    {
        let mut text = String::from_str("GPU: ");
        text.append(self.name.as_str());
        text.append(", driver: ");
        text.append(self.driver_version.as_str());
        text.append(", compute capability: ");
        push_capability(&mut text, self.compute_capability);
        match self.total_memory_mb {
            Some(mb) => {
                text.append(", VRAM: ");
                push_decimal(&mut text, mb);
                text.append(" MiB");
            },
            None => {},
        }
        proof {
            reveal_strlit("GPU: ");
            reveal_strlit(", driver: ");
            reveal_strlit(", compute capability: ");
            reveal_strlit(", VRAM: ");
            reveal_strlit(" MiB");
        }
        text
    }
}

/// Accepts the driver when its branch is at least R580.
pub fn validate_driver(report: &CudaGpuReport) -> (r: Result<(), AppError>)
    ensures
        match first_number(report.driver_version@, u32::MAX as nat) {
            None => speech_error(r, driver_unreadable_message(report.driver_version@)),
            Some(branch) => if branch < MIN_CUDA_13_DRIVER_BRANCH {
                speech_error(r, driver_too_old_message(report.driver_version@))
            } else {
                r is Ok
            },
        },
{
    let branch = match parse_driver_branch(report.driver_version.as_str()) {
        Some(b) => b,
        None => {
            let mut text = String::from_str("Não consegui interpretar o driver NVIDIA detectado (");
            text.append(report.driver_version.as_str());
            text.append("). Atualize o driver NVIDIA e tente de novo.");
            proof {
                reveal_strlit("Não consegui interpretar o driver NVIDIA detectado (");
                reveal_strlit("). Atualize o driver NVIDIA e tente de novo.");
            }
            return Err(AppError::SpeechEngineUnavailable(text));
        },
    };
    if branch < MIN_CUDA_13_DRIVER_BRANCH {
        let mut text = String::from_str(
            "Driver NVIDIA incompatível com o runtime CUDA 13.x deste pacote. Detectado: ",
        );
        text.append(report.driver_version.as_str());
        text.append(". Exigido: ramo R");
        push_decimal(&mut text, MIN_CUDA_13_DRIVER_BRANCH as u64);
        text.append(
            "+ para executar bibliotecas CUDA 13. Atualize pelo site da NVIDIA e abra o programa novamente.",
        );
        proof {
            reveal_strlit(
                "Driver NVIDIA incompatível com o runtime CUDA 13.x deste pacote. Detectado: ",
            );
            reveal_strlit(". Exigido: ramo R");
            reveal_strlit(
                "+ para executar bibliotecas CUDA 13. Atualize pelo site da NVIDIA e abra o programa novamente.",
            );
        }
        return Err(AppError::SpeechEngineUnavailable(text));
    }
    Ok(())
}

/// Accepts the GPU when its compute capability is at least 7.5 (Turing).
pub fn validate_compute_capability(report: &CudaGpuReport) -> (r: Result<(), AppError>)
    ensures
        if report.compute_capability < MIN_CUDA_13_COMPUTE_CAPABILITY {
            speech_error(
                r,
                capability_too_low_message(report.name@, report.compute_capability),
            )
        } else {
            r is Ok
        },
{
    if report.compute_capability < MIN_CUDA_13_COMPUTE_CAPABILITY {
        let mut text = String::from_str("GPU NVIDIA incompatível com este pacote CUDA 13.x. Detectada: ");
        text.append(report.name.as_str());
        text.append(" compute capability ");
        push_capability(&mut text, report.compute_capability);
        text.append(". Exigido: ");
        push_capability(&mut text, MIN_CUDA_13_COMPUTE_CAPABILITY);
        text.append("+ (Turing/RTX ou mais nova).");
        proof {
            reveal_strlit("GPU NVIDIA incompatível com este pacote CUDA 13.x. Detectada: ");
            reveal_strlit(" compute capability ");
            reveal_strlit(". Exigido: ");
            reveal_strlit("+ (Turing/RTX ou mais nova).");
        }
        return Err(AppError::SpeechEngineUnavailable(text));
    }
    Ok(())
}

/// Checks the GPU that `nvidia-smi` reported: it must be readable, run a
/// recent enough driver and have a recent enough compute capability.
pub fn require_cuda_gpu(nvidia_smi_output: &str) -> (r: Result<CudaGpuReport, AppError>)
    ensures
        match first_nonblank(text_lines(nvidia_smi_output@)) {
            None => speech_error(r, no_gpu_message()),
            Some(line) => {
                let columns = trimmed_all(split_all(line, ','));
                if columns.len() != 4 {
                    speech_error(r, unexpected_reply_message(line))
                } else {
                    match compute_capability_of(columns[2]) {
                        None => speech_error(r, unreadable_capability_message(columns[2])),
                        Some(cc) => match first_number(columns[1], u32::MAX as nat) {
                            None => speech_error(r, driver_unreadable_message(columns[1])),
                            Some(branch) => if branch < MIN_CUDA_13_DRIVER_BRANCH {
                                speech_error(r, driver_too_old_message(columns[1]))
                            } else if cc < MIN_CUDA_13_COMPUTE_CAPABILITY {
                                speech_error(r, capability_too_low_message(columns[0], cc))
                            } else {
                                r matches Ok(report) && report.name@ == columns[0]
                                    && report.driver_version@ == columns[1]
                                    && report.compute_capability == cc
                            },
                        },
                    }
                }
            },
        },
{
    let report = match parse_nvidia_smi_output(nvidia_smi_output) {
        Ok(report) => report,
        Err(e) => {
            return Err(e);
        },
    };
    match validate_driver(&report) {
        Ok(()) => {},
        Err(e) => {
            return Err(e);
        },
    }
    match validate_compute_capability(&report) {
        Ok(()) => {},
        Err(e) => {
            return Err(e);
        },
    }
    Ok(report)
}

/// The `nvidia-smi` executables tried, in order; Windows adds the two places
/// where the driver installs it.
pub fn nvidia_smi_candidates(windows: bool) -> (r: Vec<String>)
    ensures
        views(r@) == (if windows {
            seq![
                "nvidia-smi"@,
                "C:\\Windows\\System32\\nvidia-smi.exe"@,
                "C:\\Program Files\\NVIDIA Corporation\\NVSMI\\nvidia-smi.exe"@,
            ]
        } else {
            seq!["nvidia-smi"@]
        }),
{
    let mut r: Vec<String> = Vec::new();
    r.push(String::from_str("nvidia-smi"));
    if windows {
        r.push(String::from_str("C:\\Windows\\System32\\nvidia-smi.exe"));
        r.push(String::from_str("C:\\Program Files\\NVIDIA Corporation\\NVSMI\\nvidia-smi.exe"));
    }
    assert(views(r@) =~= (if windows {
        seq![
            "nvidia-smi"@,
            "C:\\Windows\\System32\\nvidia-smi.exe"@,
            "C:\\Program Files\\NVIDIA Corporation\\NVSMI\\nvidia-smi.exe"@,
        ]
    } else {
        seq!["nvidia-smi"@]
    }));
    r
}

/// The error when no `nvidia-smi` could be run, listing each try.
pub fn nvidia_smi_failure(failures: &Vec<String>) -> (e: AppError)
    ensures
        e matches AppError::SpeechEngineUnavailable(m) && m@ == "Não consegui consultar a GPU NVIDIA via nvidia-smi. Instale/atualize o driver NVIDIA com suporte CUDA 13.x e reinicie o Windows. Tentativas: "@ + join(views(failures@), " | "@),
{
    let mut text = String::from_str(
        "Não consegui consultar a GPU NVIDIA via nvidia-smi. Instale/atualize o driver NVIDIA com suporte CUDA 13.x e reinicie o Windows. Tentativas: ",
    );
    let joined = join_strings(failures, " | ");
    text.append(joined.as_str());
    proof {
        reveal_strlit(
            "Não consegui consultar a GPU NVIDIA via nvidia-smi. Instale/atualize o driver NVIDIA com suporte CUDA 13.x e reinicie o Windows. Tentativas: ",
        );
    }
    AppError::SpeechEngineUnavailable(text)
}

/// What `String::from_utf8_lossy` makes of the bytes.
pub uninterp spec fn lossy_text(bytes: Seq<u8>) -> Seq<char>;

/// Calls `String::from_utf8_lossy`. Claimed: the text depends on the bytes
/// alone and is named `lossy_text` of them; nothing more is stated of it.
#[verifier::external_body]
fn utf8_lossy(bytes: &[u8]) -> (r: String)
    ensures
        r@ == lossy_text(bytes@),
{
    String::from_utf8_lossy(bytes).into_owned()
}

pub open spec fn process_output_text(stdout: Seq<char>, stderr: Seq<char>) -> Seq<char> {
    if stdout.len() == 0 && stderr.len() == 0 {
        seq![]
    } else if stderr.len() == 0 {
        " stdout: "@ + stdout
    } else if stdout.len() == 0 {
        " stderr: "@ + stderr
    } else {
        " stdout: "@ + stdout + " stderr: "@ + stderr
    }
}

/// The trimmed output of a failed process, as it is appended to the error.
pub fn format_process_output(stdout: &[u8], stderr: &[u8]) -> (r: String)
    ensures
        r@ == process_output_text(trim(lossy_text(stdout@)), trim(lossy_text(stderr@))),
{
    let out = utf8_lossy(stdout);
    let err = utf8_lossy(stderr);
    format_process_text(out.as_str(), err.as_str())
}

/// The output of a failed process, as text, trimmed and labelled.
pub fn format_process_text(stdout: &str, stderr: &str) -> (r: String)
    ensures
        r@ == process_output_text(trim(stdout@), trim(stderr@)),
{
    let out = trim_str(stdout);
    let err = trim_str(stderr);
    proof {
        reveal_strlit(" stdout: ");
        reveal_strlit(" stderr: ");
    }
    let mut text = String::new();
    if out.as_str().is_empty() && err.as_str().is_empty() {
        return text;
    }
    if !out.as_str().is_empty() {
        text.append(" stdout: ");
        text.append(out.as_str());
    }
    if !err.as_str().is_empty() {
        text.append(" stderr: ");
        text.append(err.as_str());
    }
    text
}

} // verus!
