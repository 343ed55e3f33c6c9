//! The text of the script fragments, by name.
//!
//! These are the fragments that debhelper ships for systemd units. A word
//! between two `#` is a place that a caller fills in.

use crate::text::{chars_of, text_is};
use vstd::prelude::*;

verus! {
pub const POSTINST_INIT_TMPFILES: &'static str = "if [ \"$1\" = \"configure\" ] || [ \"$1\" = \"abort-upgrade\" ] || [ \"$1\" = \"abort-deconfigure\" ] || [ \"$1\" = \"abort-remove\" ] ; then\n\t# In case this system is running systemd, we need to ensure that all\n\t# necessary tmpfiles (if any) are created before starting.\n\tif [ -d /run/systemd/system ] ; then\n\t\tsystemd-tmpfiles --create #TMPFILES# >/dev/null || true\n\tfi\nfi\n";
pub const POSTINST_SYSTEMD_DONT_ENABLE: &'static str = "if [ \"$1\" = \"configure\" ] || [ \"$1\" = \"abort-upgrade\" ] || [ \"$1\" = \"abort-deconfigure\" ] || [ \"$1\" = \"abort-remove\" ] ; then\n\tif deb-systemd-helper debian-installed '#UNITFILE#'; then\n\t\t# This will only remove masks created by d-s-h on package removal.\n\t\tdeb-systemd-helper unmask '#UNITFILE#' >/dev/null || true\n\n\t\tif deb-systemd-helper --quiet was-enabled '#UNITFILE#'; then\n\t\t\t# Create new symlinks, if any.\n\t\t\tdeb-systemd-helper enable '#UNITFILE#' >/dev/null || true\n\t\tfi\n\tfi\n\n\t# Update the statefile to add new symlinks (if any), which need to be cleaned\n\t# up on purge. Also remove old symlinks.\n\tdeb-systemd-helper update-state '#UNITFILE#' >/dev/null || true\nfi\n";
pub const POSTINST_SYSTEMD_ENABLE: &'static str = "if [ \"$1\" = \"configure\" ] || [ \"$1\" = \"abort-upgrade\" ] || [ \"$1\" = \"abort-deconfigure\" ] || [ \"$1\" = \"abort-remove\" ] ; then\n\t# This will only remove masks created by d-s-h on package removal.\n\tdeb-systemd-helper unmask '#UNITFILE#' >/dev/null || true\n\n\t# was-enabled defaults to true, so new installations run enable.\n\tif deb-systemd-helper --quiet was-enabled '#UNITFILE#'; then\n\t\t# Enables the unit on first installation, creates new\n\t\t# symlinks on upgrades if the unit file has changed.\n\t\tdeb-systemd-helper enable '#UNITFILE#' >/dev/null || true\n\telse\n\t\t# Update the statefile to add new symlinks (if any), which need to be\n\t\t# cleaned up on purge. Also remove old symlinks.\n\t\tdeb-systemd-helper update-state '#UNITFILE#' >/dev/null || true\n\tfi\nfi\n";
pub const POSTINST_SYSTEMD_RESTART: &'static str = "if [ \"$1\" = \"configure\" ] || [ \"$1\" = \"abort-upgrade\" ] || [ \"$1\" = \"abort-deconfigure\" ] || [ \"$1\" = \"abort-remove\" ] ; then\n\tif [ -d /run/systemd/system ]; then\n\t\tsystemctl --system daemon-reload >/dev/null || true\n\t\tif [ -n \"$2\" ]; then\n\t\t\t_dh_action=#RESTART_ACTION#\n\t\telse\n\t\t\t_dh_action=start\n\t\tfi\n\t\tdeb-systemd-invoke $_dh_action #UNITFILES# >/dev/null || true\n\tfi\nfi\n";
pub const POSTINST_SYSTEMD_RESTARTNOSTART: &'static str = "if [ \"$1\" = \"configure\" ] || [ \"$1\" = \"abort-upgrade\" ] || [ \"$1\" = \"abort-deconfigure\" ] || [ \"$1\" = \"abort-remove\" ] ; then\n\tif [ -d /run/systemd/system ]; then\n\t\tsystemctl --system daemon-reload >/dev/null || true\n\t\tif [ -n \"$2\" ]; then\n\t\t\tdeb-systemd-invoke #RESTART_ACTION# #UNITFILES# >/dev/null || true\n\t\tfi\n\tfi\nfi\n";
pub const POSTINST_SYSTEMD_START: &'static str = "if [ \"$1\" = \"configure\" ] || [ \"$1\" = \"abort-upgrade\" ] || [ \"$1\" = \"abort-deconfigure\" ] || [ \"$1\" = \"abort-remove\" ] ; then\n\tif [ -d /run/systemd/system ]; then\n\t\tsystemctl --system daemon-reload >/dev/null || true\n\t\tdeb-systemd-invoke start #UNITFILES# >/dev/null || true\n\tfi\nfi\n";
pub const POSTRM_SYSTEMD: &'static str = "if [ \"$1\" = \"remove\" ]; then\n\tif [ -x \"/usr/bin/deb-systemd-helper\" ]; then\n\t\tdeb-systemd-helper mask #UNITFILES# >/dev/null || true\n\tfi\nfi\n\nif [ \"$1\" = \"purge\" ]; then\n\tif [ -x \"/usr/bin/deb-systemd-helper\" ]; then\n\t\tdeb-systemd-helper purge #UNITFILES# >/dev/null || true\n\t\tdeb-systemd-helper unmask #UNITFILES# >/dev/null || true\n\tfi\nfi\n";
pub const POSTRM_SYSTEMD_RELOAD_ONLY: &'static str = "if [ -d /run/systemd/system ]; then\n\tsystemctl --system daemon-reload >/dev/null || true\nfi\n";
pub const PRERM_SYSTEMD: &'static str = "if [ -d /run/systemd/system ]; then\n\tdeb-systemd-invoke stop #UNITFILES# >/dev/null || true\nfi\n";
pub const PRERM_SYSTEMD_RESTART: &'static str = "if [ -d /run/systemd/system ] && [ \"$1\" = remove ]; then\n\tdeb-systemd-invoke stop #UNITFILES# >/dev/null || true\nfi\n";

/// The names of all fragments, in the order of `str`.
pub fn autoscript_names() -> (r: Vec<&'static str>)
    ensures
        r@.len() == 10,
        forall|i: int| 0 <= i < r@.len() ==> autoscript_template((#[trigger] r@[i])@) is Some,
{
    let mut v: Vec<&'static str> = Vec::new();
    v.push("postinst-init-tmpfiles");
    v.push("postinst-systemd-dont-enable");
    v.push("postinst-systemd-enable");
    v.push("postinst-systemd-restart");
    v.push("postinst-systemd-restartnostart");
    v.push("postinst-systemd-start");
    v.push("postrm-systemd");
    v.push("postrm-systemd-reload-only");
    v.push("prerm-systemd");
    v.push("prerm-systemd-restart");
    v
}

/// The fragment called `name`, if there is one.
pub open spec fn autoscript_template(name: Seq<char>) -> Option<Seq<char>> {
    if name == "postinst-init-tmpfiles"@ {
        Some(POSTINST_INIT_TMPFILES@)
    }     else if name == "postinst-systemd-dont-enable"@ {
        Some(POSTINST_SYSTEMD_DONT_ENABLE@)
    }     else if name == "postinst-systemd-enable"@ {
        Some(POSTINST_SYSTEMD_ENABLE@)
    }     else if name == "postinst-systemd-restart"@ {
        Some(POSTINST_SYSTEMD_RESTART@)
    }     else if name == "postinst-systemd-restartnostart"@ {
        Some(POSTINST_SYSTEMD_RESTARTNOSTART@)
    }     else if name == "postinst-systemd-start"@ {
        Some(POSTINST_SYSTEMD_START@)
    }     else if name == "postrm-systemd"@ {
        Some(POSTRM_SYSTEMD@)
    }     else if name == "postrm-systemd-reload-only"@ {
        Some(POSTRM_SYSTEMD_RELOAD_ONLY@)
    }     else if name == "prerm-systemd"@ {
        Some(PRERM_SYSTEMD@)
    }     else if name == "prerm-systemd-restart"@ {
        Some(PRERM_SYSTEMD_RESTART@)
    } else {
        None
    }
}

/// The fragment called `name`, if there is one.
pub fn lookup_autoscript(name: &str) -> (r: Option<&'static str>)
    ensures
        match r {
            Some(t) => autoscript_template(name@) == Some(t@),
            None => autoscript_template(name@) is None,
        },
{
    let n = chars_of(name);
    if text_is(&n, "postinst-init-tmpfiles") {
        Some(POSTINST_INIT_TMPFILES)
    }     else if text_is(&n, "postinst-systemd-dont-enable") {
        Some(POSTINST_SYSTEMD_DONT_ENABLE)
    }     else if text_is(&n, "postinst-systemd-enable") {
        Some(POSTINST_SYSTEMD_ENABLE)
    }     else if text_is(&n, "postinst-systemd-restart") {
        Some(POSTINST_SYSTEMD_RESTART)
    }     else if text_is(&n, "postinst-systemd-restartnostart") {
        Some(POSTINST_SYSTEMD_RESTARTNOSTART)
    }     else if text_is(&n, "postinst-systemd-start") {
        Some(POSTINST_SYSTEMD_START)
    }     else if text_is(&n, "postrm-systemd") {
        Some(POSTRM_SYSTEMD)
    }     else if text_is(&n, "postrm-systemd-reload-only") {
        Some(POSTRM_SYSTEMD_RELOAD_ONLY)
    }     else if text_is(&n, "prerm-systemd") {
        Some(PRERM_SYSTEMD)
    }     else if text_is(&n, "prerm-systemd-restart") {
        Some(PRERM_SYSTEMD_RESTART)
    } else {
        None
    }
}

} // verus!
