//! Capturing a Windows desktop with a script of the shell.
use vstd::prelude::*;

use crate::screenshot;
use crate::screenshot::MAX_IMAGE_BYTES;
use crate::text;
use crate::text::Text;

verus! {

/// A captured image and the program that made it.
#[derive(Debug)]
pub struct Screenshot {
    pub data: Vec<u8>,
    pub mime_type: &'static str,
    pub backend: &'static str,
}

/// How long a capture may take, in seconds.
pub const CAPTURE_TIMEOUT: u64 = 15;

/// The script that captures the whole desktop into a file.
pub const CAPTURE_SCRIPT: &'static str = "
param([Parameter(Mandatory=$true)][string]$OutputPath)
Add-Type -AssemblyName System.Drawing
Add-Type -AssemblyName System.Windows.Forms
$bounds = [System.Windows.Forms.SystemInformation]::VirtualScreen
$bitmap = [System.Drawing.Bitmap]::new($bounds.Width, $bounds.Height)
$graphics = [System.Drawing.Graphics]::FromImage($bitmap)
try {
    $graphics.CopyFromScreen($bounds.Location, [System.Drawing.Point]::Empty, $bounds.Size)
    $bitmap.Save($OutputPath, [System.Drawing.Imaging.ImageFormat]::Jpeg)
} finally {
    $graphics.Dispose()
    $bitmap.Dispose()
}
";

/// Whether bytes are a complete JPEG image.
pub open spec fn is_jpeg(d: Seq<u8>) -> bool {
    d.len() >= 4 && screenshot::starts(d, seq![0xffu8, 0xd8, 0xff]) && screenshot::jpeg_complete(d)
}

/// Why what the script wrote is no screenshot.
pub open spec fn capture_fault(d: Seq<u8>) -> Option<Text> {
    if d.len() > MAX_IMAGE_BYTES {
        Some("screenshot unavailable: captured image exceeds 8 MiB"@)
    } else if !is_jpeg(d) {
        Some("screenshot unavailable: pwsh produced an invalid JPEG"@)
    } else {
        None
    }
}

/// Takes what the script wrote.
pub fn captured(data: Vec<u8>) -> (r: Result<Screenshot, String>)
    ensures
        match r {
            Ok(shot) => capture_fault(data@) is None && shot.data@ == data@ && shot.mime_type@
                == "image/jpeg"@ && shot.backend@ == "pwsh-system-drawing"@,
            Err(e) => capture_fault(data@) == Some(e@),
        },
{
    let length: usize = data.len();
    if length as u64 > MAX_IMAGE_BYTES {
        return Err("screenshot unavailable: captured image exceeds 8 MiB".to_string());
    }
    proof {
        let d = data@;
        if screenshot::starts(d, screenshot::png_head()) && screenshot::starts(
            d,
            seq![0xffu8, 0xd8, 0xff],
        ) {
            assert(d.take(8)[0] == d[0] && d.take(3)[0] == d[0]);
        }
    }
    let complete = match screenshot::image_mime_type(data.as_slice()) {
        Some(kind) => text::same(kind, "image/jpeg"),
        None => false,
    };
    proof {
        reveal_strlit("image/png");
        reveal_strlit("image/jpeg");
        assert("image/png"@.len() != "image/jpeg"@.len());
    }
    if length < 4 || !complete {
        return Err("screenshot unavailable: pwsh produced an invalid JPEG".to_string());
    }
    Ok(Screenshot { data, mime_type: "image/jpeg", backend: "pwsh-system-drawing" })
}

/// What is said when the script failed.
pub fn exit_message(code: i32) -> (r: String)
    ensures
        r@ == "screenshot unavailable: pwsh capture exited with "@ + text::decimal_int(
            code as int,
        ),
{
    let number = text::signed_number(code as i64);
    let mut out = "screenshot unavailable: pwsh capture exited with ".to_string();
    out.append(number.as_str());
    out
}

/// What the script wrote is taken exactly when it is a complete JPEG image, of
/// at least four bytes and at most eight mebibytes.
pub proof fn complete_images_are_taken(d: Seq<u8>)
    ensures
        capture_fault(d) is None <==> 4 <= d.len() <= 8_388_608 && screenshot::kind_of(d) == Some(
            "image/jpeg"@,
        ),
        d.len() > 8_388_608 ==> capture_fault(d) == Some(
            "screenshot unavailable: captured image exceeds 8 MiB"@,
        ),
{
    screenshot::images_are_told_by_their_ends(d);
    reveal_strlit("image/png");
    reveal_strlit("image/jpeg");
    assert("image/png"@.len() != "image/jpeg"@.len());
    if screenshot::starts(d, screenshot::png_head()) && screenshot::starts(
        d,
        seq![0xffu8, 0xd8, 0xff],
    ) {
        assert(d.take(8)[0] == d[0] && d.take(3)[0] == d[0]);
    }
}

} // verus!
