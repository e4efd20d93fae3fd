//! Text planning for a small system-administration tool: the edits it makes
//! to BIND, Apache and NFS configuration files, the DNS zone files it writes,
//! and the command lines it runs for backups and RAID creation.

pub mod backup;
pub mod clock;
pub mod command;
pub mod httpd;
pub mod named_conf;
pub mod nfs;
pub mod pattern;
pub mod raid;
pub mod text;
pub mod zone_file;
