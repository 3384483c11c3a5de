//! The mapping of Debian package names to Arch package names.

use vstd::prelude::*;

use crate::text::equal;

verus! {

/// One Debian-to-Arch package-name mapping.
#[derive(Clone, Debug, PartialEq, Eq)]
pub struct PackageMapping {
    pub arch_name: String,
    /// Keep Debian version constraints only when this value is true.
    pub version_compatible: bool,
}

/// The mathematical value of a [`PackageMapping`].
pub struct MappingModel {
    pub arch_name: Seq<char>,
    pub version_compatible: bool,
}

impl DeepView for PackageMapping {
    type V = MappingModel;

    open spec fn deep_view(&self) -> MappingModel {
        MappingModel {
            arch_name: self.arch_name@,
            version_compatible: self.version_compatible,
        }
    }
}

impl PackageMapping {
    /// Create a mapping to an Arch package name.
    pub fn new(arch_name: &str, version_compatible: bool) -> (result: Self)
        ensures
            result.deep_view() == (MappingModel { arch_name: arch_name@, version_compatible }),
    {
        PackageMapping { arch_name: String::from_str(arch_name), version_compatible }
    }
}

/// The maintained Arch name for a Debian package. The last entry lists names
/// that are the same in both distributions.
pub open spec fn built_in_name(name: Seq<char>) -> Option<Seq<char>> {
    if name == "libgtk-3-0"@ {
        Some("gtk3"@)
    } else if name == "libnotify4"@ {
        Some("libnotify"@)
    } else if name == "libnss3"@ {
        Some("nss"@)
    } else if name == "libatspi2.0-0"@ || name == "libatk1.0-0"@ || name == "libatk-bridge2.0-0"@ {
        Some("at-spi2-core"@)
    } else if name == "libdrm2"@ {
        Some("libdrm"@)
    } else if name == "libgbm1"@ {
        Some("mesa"@)
    } else if name == "libglib2.0-0"@ || name == "libglib2.0-bin"@ {
        Some("glib2"@)
    } else if name == "libasound2"@ {
        Some("alsa-lib"@)
    } else if name == "libc6"@ {
        Some("glibc"@)
    } else if name == "libcairo2"@ {
        Some("cairo"@)
    } else if name == "libcups2"@ {
        Some("libcups"@)
    } else if name == "libdbus-1-3"@ {
        Some("dbus"@)
    } else if name == "libexpat1"@ {
        Some("expat"@)
    } else if name == "libgcc-s1"@ || name == "libstdc++6"@ {
        Some("gcc-libs"@)
    } else if name == "libgdk-pixbuf-2.0-0"@ {
        Some("gdk-pixbuf2"@)
    } else if name == "libgl1"@ {
        Some("libglvnd"@)
    } else if name == "libgraphite2-3"@ {
        Some("graphite"@)
    } else if name == "libnspr4"@ {
        Some("nspr"@)
    } else if name == "libpango-1.0-0"@ {
        Some("pango"@)
    } else if name == "libssl3"@ {
        Some("openssl"@)
    } else if name == "libudev1"@ {
        Some("systemd-libs"@)
    } else if name == "libusb-1.0-0"@ {
        Some("libusb"@)
    } else if name == "libx11-6"@ || name == "libx11-xcb1"@ {
        Some("libx11"@)
    } else if name == "libxcb1"@ || name == "libxcb-dri3-0"@ {
        Some("libxcb"@)
    } else if name == "libxcomposite1"@ {
        Some("libxcomposite"@)
    } else if name == "libxdamage1"@ {
        Some("libxdamage"@)
    } else if name == "libxext6"@ {
        Some("libxext"@)
    } else if name == "libxfixes3"@ {
        Some("libxfixes"@)
    } else if name == "libxkbcommon0"@ {
        Some("libxkbcommon"@)
    } else if name == "libxrandr2"@ {
        Some("libxrandr"@)
    } else if name == "libxss1"@ {
        Some("libxss"@)
    } else if name == "libxtst6"@ {
        Some("libxtst"@)
    } else if name == "libuuid1"@ {
        Some("util-linux-libs"@)
    } else if name == "libsecret-1-0"@ {
        Some("libsecret"@)
    } else if name == "libappindicator3-1"@ {
        Some("libappindicator"@)
    } else if name == "xz-utils"@ {
        Some("xz"@)
    } else if name == "gvfs-bin"@ {
        Some("gvfs"@)
    } else if name == "gir1.2-gnomekeyring-1.0"@ || name == "libgnome-keyring0"@ {
        Some("gnome-keyring"@)
    } else if name == "libfontconfig1"@ {
        Some("fontconfig"@)
    } else if name == "libfreetype6"@ {
        Some("freetype2"@)
    } else if name == "libxi6"@ {
        Some("libxi"@)
    } else if name == "libxinerama1"@ {
        Some("libxinerama"@)
    } else if name == "libxrender1"@ {
        Some("libxrender"@)
    } else if name == "zlib1g"@ {
        Some("zlib"@)
    } else if name == "libcurl4"@ {
        Some("curl"@)
    } else if name == "libsqlite3-0"@ {
        Some("sqlite"@)
    } else if name == "libreadline8"@ {
        Some("readline"@)
    } else if name == "libncurses6"@ {
        Some("ncurses"@)
    } else if name == "liblzma5"@ {
        Some("xz"@)
    } else if name == "libbz2-1.0"@ {
        Some("bzip2"@)
    } else if name == "libzstd1"@ {
        Some("zstd"@)
    } else if name == "xdg-utils"@ || name == "kde-cli-tools"@ || name == "kde-runtime"@ || name
        == "trash-cli"@ || name == "pulseaudio"@ || name == "git"@ || name == "lsb-release"@ {
        Some(name)
    } else {
        None
    }
}

/// Get the maintained Arch name for a Debian package.
///
/// `None` means that the resolver will keep the valid Debian name and report a
/// warning, unless the same name occurs in the local pacman catalog.
/// Debian and Arch package release versions are not assumed equivalent.
pub fn built_in_package_mapping<'a>(name: &'a str) -> (result: Option<(&'a str, bool)>)
    ensures
        match result {
            Some((arch_name, version_compatible)) => built_in_name(name@) == Some(arch_name@)
                && !version_compatible,
            None => built_in_name(name@) is None,
        },
{
    if equal(name, "libgtk-3-0") {
        Some(("gtk3", false))
    } else if equal(name, "libnotify4") {
        Some(("libnotify", false))
    } else if equal(name, "libnss3") {
        Some(("nss", false))
    } else if equal(name, "libatspi2.0-0") || equal(name, "libatk1.0-0") || equal(
        name,
        "libatk-bridge2.0-0",
    ) {
        Some(("at-spi2-core", false))
    } else if equal(name, "libdrm2") {
        Some(("libdrm", false))
    } else if equal(name, "libgbm1") {
        Some(("mesa", false))
    } else if equal(name, "libglib2.0-0") || equal(name, "libglib2.0-bin") {
        Some(("glib2", false))
    } else if equal(name, "libasound2") {
        Some(("alsa-lib", false))
    } else if equal(name, "libc6") {
        Some(("glibc", false))
    } else if equal(name, "libcairo2") {
        Some(("cairo", false))
    } else if equal(name, "libcups2") {
        Some(("libcups", false))
    } else if equal(name, "libdbus-1-3") {
        Some(("dbus", false))
    } else if equal(name, "libexpat1") {
        Some(("expat", false))
    } else if equal(name, "libgcc-s1") || equal(name, "libstdc++6") {
        Some(("gcc-libs", false))
    } else if equal(name, "libgdk-pixbuf-2.0-0") {
        Some(("gdk-pixbuf2", false))
    } else if equal(name, "libgl1") {
        Some(("libglvnd", false))
    } else if equal(name, "libgraphite2-3") {
        Some(("graphite", false))
    } else if equal(name, "libnspr4") {
        Some(("nspr", false))
    } else if equal(name, "libpango-1.0-0") {
        Some(("pango", false))
    } else if equal(name, "libssl3") {
        Some(("openssl", false))
    } else if equal(name, "libudev1") {
        Some(("systemd-libs", false))
    } else if equal(name, "libusb-1.0-0") {
        Some(("libusb", false))
    } else if equal(name, "libx11-6") || equal(name, "libx11-xcb1") {
        Some(("libx11", false))
    } else if equal(name, "libxcb1") || equal(name, "libxcb-dri3-0") {
        Some(("libxcb", false))
    } else if equal(name, "libxcomposite1") {
        Some(("libxcomposite", false))
    } else if equal(name, "libxdamage1") {
        Some(("libxdamage", false))
    } else if equal(name, "libxext6") {
        Some(("libxext", false))
    } else if equal(name, "libxfixes3") {
        Some(("libxfixes", false))
    } else if equal(name, "libxkbcommon0") {
        Some(("libxkbcommon", false))
    } else if equal(name, "libxrandr2") {
        Some(("libxrandr", false))
    } else if equal(name, "libxss1") {
        Some(("libxss", false))
    } else if equal(name, "libxtst6") {
        Some(("libxtst", false))
    } else if equal(name, "libuuid1") {
        Some(("util-linux-libs", false))
    } else if equal(name, "libsecret-1-0") {
        Some(("libsecret", false))
    } else if equal(name, "libappindicator3-1") {
        Some(("libappindicator", false))
    } else if equal(name, "xz-utils") {
        Some(("xz", false))
    } else if equal(name, "gvfs-bin") {
        Some(("gvfs", false))
    } else if equal(name, "gir1.2-gnomekeyring-1.0") || equal(name, "libgnome-keyring0") {
        Some(("gnome-keyring", false))
    } else if equal(name, "libfontconfig1") {
        Some(("fontconfig", false))
    } else if equal(name, "libfreetype6") {
        Some(("freetype2", false))
    } else if equal(name, "libxi6") {
        Some(("libxi", false))
    } else if equal(name, "libxinerama1") {
        Some(("libxinerama", false))
    } else if equal(name, "libxrender1") {
        Some(("libxrender", false))
    } else if equal(name, "zlib1g") {
        Some(("zlib", false))
    } else if equal(name, "libcurl4") {
        Some(("curl", false))
    } else if equal(name, "libsqlite3-0") {
        Some(("sqlite", false))
    } else if equal(name, "libreadline8") {
        Some(("readline", false))
    } else if equal(name, "libncurses6") {
        Some(("ncurses", false))
    } else if equal(name, "liblzma5") {
        Some(("xz", false))
    } else if equal(name, "libbz2-1.0") {
        Some(("bzip2", false))
    } else if equal(name, "libzstd1") {
        Some(("zstd", false))
    } else if equal(name, "xdg-utils") || equal(name, "kde-cli-tools") || equal(name, "kde-runtime")
        || equal(name, "trash-cli") || equal(name, "pulseaudio") || equal(name, "git") || equal(
        name,
        "lsb-release",
    ) {
        Some((name, false))
    } else {
        None
    }
}

// ---------------------------------------------------------------------------
// Laws
// ---------------------------------------------------------------------------
/// Debian packages beside the Arch packages that stand for them, in the order of the
/// Arch names.
pub open spec fn counterparts() -> Seq<(Seq<char>, Seq<char>)> {
    seq![
        ("libasound2"@, "alsa-lib"@),
        ("libatk-bridge2.0-0"@, "at-spi2-core"@),
        ("libatk1.0-0"@, "at-spi2-core"@),
        ("libatspi2.0-0"@, "at-spi2-core"@),
        ("libbz2-1.0"@, "bzip2"@),
        ("libcairo2"@, "cairo"@),
        ("libcurl4"@, "curl"@),
        ("libdbus-1-3"@, "dbus"@),
        ("libexpat1"@, "expat"@),
        ("libfontconfig1"@, "fontconfig"@),
        ("libfreetype6"@, "freetype2"@),
        ("libgcc-s1"@, "gcc-libs"@),
        ("libstdc++6"@, "gcc-libs"@),
        ("libgdk-pixbuf-2.0-0"@, "gdk-pixbuf2"@),
        ("git"@, "git"@),
        ("libglib2.0-0"@, "glib2"@),
        ("libglib2.0-bin"@, "glib2"@),
        ("libc6"@, "glibc"@),
        ("gir1.2-gnomekeyring-1.0"@, "gnome-keyring"@),
        ("libgnome-keyring0"@, "gnome-keyring"@),
        ("libgraphite2-3"@, "graphite"@),
        ("libgtk-3-0"@, "gtk3"@),
        ("gvfs-bin"@, "gvfs"@),
        ("kde-cli-tools"@, "kde-cli-tools"@),
        ("kde-runtime"@, "kde-runtime"@),
        ("libappindicator3-1"@, "libappindicator"@),
        ("libcups2"@, "libcups"@),
        ("libdrm2"@, "libdrm"@),
        ("libgl1"@, "libglvnd"@),
        ("libnotify4"@, "libnotify"@),
        ("libsecret-1-0"@, "libsecret"@),
        ("libusb-1.0-0"@, "libusb"@),
        ("libx11-6"@, "libx11"@),
        ("libx11-xcb1"@, "libx11"@),
        ("libxcb-dri3-0"@, "libxcb"@),
        ("libxcb1"@, "libxcb"@),
        ("libxcomposite1"@, "libxcomposite"@),
        ("libxdamage1"@, "libxdamage"@),
        ("libxext6"@, "libxext"@),
        ("libxfixes3"@, "libxfixes"@),
        ("libxi6"@, "libxi"@),
        ("libxinerama1"@, "libxinerama"@),
        ("libxkbcommon0"@, "libxkbcommon"@),
        ("libxrandr2"@, "libxrandr"@),
        ("libxrender1"@, "libxrender"@),
        ("libxss1"@, "libxss"@),
        ("libxtst6"@, "libxtst"@),
        ("lsb-release"@, "lsb-release"@),
        ("libgbm1"@, "mesa"@),
        ("libncurses6"@, "ncurses"@),
        ("libnspr4"@, "nspr"@),
        ("libnss3"@, "nss"@),
        ("libssl3"@, "openssl"@),
        ("libpango-1.0-0"@, "pango"@),
        ("pulseaudio"@, "pulseaudio"@),
        ("libreadline8"@, "readline"@),
        ("libsqlite3-0"@, "sqlite"@),
        ("libudev1"@, "systemd-libs"@),
        ("trash-cli"@, "trash-cli"@),
        ("libuuid1"@, "util-linux-libs"@),
        ("xdg-utils"@, "xdg-utils"@),
        ("liblzma5"@, "xz"@),
        ("xz-utils"@, "xz"@),
        ("zlib1g"@, "zlib"@),
        ("libzstd1"@, "zstd"@),
    ]
}

/// A Debian name has a maintained Arch name exactly if it has a counterpart, and
/// then it is given that name.
#[verifier::spinoff_prover]
pub proof fn counterparts_are_given(name: Seq<char>, index: int)
    ensures
        built_in_name(name) matches Some(known) ==> counterparts().contains((name, known)),
        0 <= index < counterparts().len() && counterparts()[index].0 == name ==> built_in_name(name)
            is Some,
{
    let all = counterparts();
    assert(all[0] == ("libasound2"@, "alsa-lib"@));
    assert(all[1] == ("libatk-bridge2.0-0"@, "at-spi2-core"@));
    assert(all[2] == ("libatk1.0-0"@, "at-spi2-core"@));
    assert(all[3] == ("libatspi2.0-0"@, "at-spi2-core"@));
    assert(all[4] == ("libbz2-1.0"@, "bzip2"@));
    assert(all[5] == ("libcairo2"@, "cairo"@));
    assert(all[6] == ("libcurl4"@, "curl"@));
    assert(all[7] == ("libdbus-1-3"@, "dbus"@));
    assert(all[8] == ("libexpat1"@, "expat"@));
    assert(all[9] == ("libfontconfig1"@, "fontconfig"@));
    assert(all[10] == ("libfreetype6"@, "freetype2"@));
    assert(all[11] == ("libgcc-s1"@, "gcc-libs"@));
    assert(all[12] == ("libstdc++6"@, "gcc-libs"@));
    assert(all[13] == ("libgdk-pixbuf-2.0-0"@, "gdk-pixbuf2"@));
    assert(all[14] == ("git"@, "git"@));
    assert(all[15] == ("libglib2.0-0"@, "glib2"@));
    assert(all[16] == ("libglib2.0-bin"@, "glib2"@));
    assert(all[17] == ("libc6"@, "glibc"@));
    assert(all[18] == ("gir1.2-gnomekeyring-1.0"@, "gnome-keyring"@));
    assert(all[19] == ("libgnome-keyring0"@, "gnome-keyring"@));
    assert(all[20] == ("libgraphite2-3"@, "graphite"@));
    assert(all[21] == ("libgtk-3-0"@, "gtk3"@));
    assert(all[22] == ("gvfs-bin"@, "gvfs"@));
    assert(all[23] == ("kde-cli-tools"@, "kde-cli-tools"@));
    assert(all[24] == ("kde-runtime"@, "kde-runtime"@));
    assert(all[25] == ("libappindicator3-1"@, "libappindicator"@));
    assert(all[26] == ("libcups2"@, "libcups"@));
    assert(all[27] == ("libdrm2"@, "libdrm"@));
    assert(all[28] == ("libgl1"@, "libglvnd"@));
    assert(all[29] == ("libnotify4"@, "libnotify"@));
    assert(all[30] == ("libsecret-1-0"@, "libsecret"@));
    assert(all[31] == ("libusb-1.0-0"@, "libusb"@));
    assert(all[32] == ("libx11-6"@, "libx11"@));
    assert(all[33] == ("libx11-xcb1"@, "libx11"@));
    assert(all[34] == ("libxcb-dri3-0"@, "libxcb"@));
    assert(all[35] == ("libxcb1"@, "libxcb"@));
    assert(all[36] == ("libxcomposite1"@, "libxcomposite"@));
    assert(all[37] == ("libxdamage1"@, "libxdamage"@));
    assert(all[38] == ("libxext6"@, "libxext"@));
    assert(all[39] == ("libxfixes3"@, "libxfixes"@));
    assert(all[40] == ("libxi6"@, "libxi"@));
    assert(all[41] == ("libxinerama1"@, "libxinerama"@));
    assert(all[42] == ("libxkbcommon0"@, "libxkbcommon"@));
    assert(all[43] == ("libxrandr2"@, "libxrandr"@));
    assert(all[44] == ("libxrender1"@, "libxrender"@));
    assert(all[45] == ("libxss1"@, "libxss"@));
    assert(all[46] == ("libxtst6"@, "libxtst"@));
    assert(all[47] == ("lsb-release"@, "lsb-release"@));
    assert(all[48] == ("libgbm1"@, "mesa"@));
    assert(all[49] == ("libncurses6"@, "ncurses"@));
    assert(all[50] == ("libnspr4"@, "nspr"@));
    assert(all[51] == ("libnss3"@, "nss"@));
    assert(all[52] == ("libssl3"@, "openssl"@));
    assert(all[53] == ("libpango-1.0-0"@, "pango"@));
    assert(all[54] == ("pulseaudio"@, "pulseaudio"@));
    assert(all[55] == ("libreadline8"@, "readline"@));
    assert(all[56] == ("libsqlite3-0"@, "sqlite"@));
    assert(all[57] == ("libudev1"@, "systemd-libs"@));
    assert(all[58] == ("trash-cli"@, "trash-cli"@));
    assert(all[59] == ("libuuid1"@, "util-linux-libs"@));
    assert(all[60] == ("xdg-utils"@, "xdg-utils"@));
    assert(all[61] == ("liblzma5"@, "xz"@));
    assert(all[62] == ("xz-utils"@, "xz"@));
    assert(all[63] == ("zlib1g"@, "zlib"@));
    assert(all[64] == ("libzstd1"@, "zstd"@));
}

} // verus!
