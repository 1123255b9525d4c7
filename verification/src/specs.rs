//! The machine's hardware, detected once at boot for the dashboard's `specs.json`, so the
//! panel shows this machine instead of a hard-coded one. Running PowerShell and writing
//! the file are the caller's.
use vstd::prelude::*;
use crate::text::string_of;

verus! {

/// The PowerShell script that asks WMI for CPU, GPU, RAM and disks and prints them as JSON.
pub const HARDWARE_QUERY: &'static str = r#"
$cpu = Get-CimInstance Win32_Processor | Select-Object -First 1
$gpus = Get-CimInstance Win32_VideoController | Where-Object { $_.Name -notmatch 'Basic|Remote|Virtual|Meta' }
$gpu = ($gpus | Where-Object { $_.Name -match 'NVIDIA|GeForce|Radeon|AMD|Arc' } | Select-Object -First 1).Name
if (-not $gpu) { $gpu = ($gpus | Select-Object -First 1).Name }
$mem = Get-CimInstance Win32_PhysicalMemory
$disks = Get-CimInstance Win32_DiskDrive | ForEach-Object {
  [pscustomobject]@{ model = $_.Model; sizeGB = [math]::Round($_.Size / 1GB, 0); type = $_.MediaType }
}
[pscustomobject]@{
  cpu      = $cpu.Name.Trim()
  cores    = $cpu.NumberOfCores
  threads  = $cpu.NumberOfLogicalProcessors
  gpu      = $gpu
  ramGB    = [math]::Round(($mem | Measure-Object Capacity -Sum).Sum / 1GB, 0)
  ramSpeed = ($mem | Select-Object -First 1).Speed
  ramType  = "$(($mem | Measure-Object).Count)x sticks"
  disks    = @($disks)
} | ConvertTo-Json -Depth 4
"#;

/// The command line that runs [`HARDWARE_QUERY`].
pub fn refresh_command() -> (r: Vec<String>)
    ensures
        r@.map_values(|a: String| a@) == seq![
            "powershell"@,
            "-NoProfile"@,
            "-NonInteractive"@,
            "-Command"@,
            HARDWARE_QUERY@,
        ],
{
    let r = vec![
        string_of("powershell"),
        string_of("-NoProfile"),
        string_of("-NonInteractive"),
        string_of("-Command"),
        string_of(HARDWARE_QUERY),
    ];
    proof {
        assert(r@.map_values(|a: String| a@) =~= seq![
            "powershell"@,
            "-NoProfile"@,
            "-NonInteractive"@,
            "-Command"@,
            HARDWARE_QUERY@,
        ]);
    }
    r
}

/// What goes into `specs.json` after the run: its output, when it succeeded and
/// printed something; nothing is written otherwise.
pub fn refresh(success: bool, stdout: Vec<u8>) -> (r: Option<Vec<u8>>)
    ensures
        match r {
            Some(b) => success && stdout@.len() > 0 && b@ == stdout@,
            None => !success || stdout@.len() == 0,
        },
{
    if success && stdout.len() > 0 {
        Some(stdout)
    } else {
        None
    }
}

} // verus!
