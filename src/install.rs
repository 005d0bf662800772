use vstd::prelude::*;
use vstd::string::StringExecFns;
use crate::status::{decimal, decimal_text};

verus! {

/// What a service unit is installed with.
pub struct InstallCommandArgs {
    pub server_address: String,
    pub server_port: u16,
    pub proxy_address: String,
    pub proxy_port: u16,
    pub service_name: String,
    pub socket: String,
}

/// The unit file to write, where, and the unit's name for the service manager.
pub struct InstallPlan {
    pub unit_file_name: String,
    pub service_path: String,
    pub unit_file: String,
}

#[derive(Debug, Clone, Copy, PartialEq, Eq, Structural)]
pub enum InstallError {
    /// Installing a service needs root permissions.
    NotRoot,
}

/// Directory of the system's unit files.
pub const UNIT_DIRECTORY: &'static str = "/etc/systemd/system/";

/// The unit file that starts the proxy with the given settings.
pub open spec fn unit_text(
    executable: Seq<char>,
    socket: Seq<char>,
    server_address: Seq<char>,
    server_port: u16,
    proxy_address: Seq<char>,
    proxy_port: u16,
) -> Seq<char> {
    "\n[Unit]\nDescription=Minecraft Maintenance Proxy\nAfter=network.target\n\n[Service]\nType=simple\nUser=root\nGroup=root\nExecStart="@
        + executable + " proxy --socket "@ + socket + " --server-address "@ + server_address
        + " --server-port "@ + decimal(server_port as int) + " --proxy-address "@ + proxy_address
        + " --proxy-port "@ + decimal(proxy_port as int)
        + "\n\n[Install]\nWantedBy=multi-user.target\n"@
}

/// Plans the installation of the proxy as a system service started at boot:
/// refused without root permissions, else the unit file and its place.
pub fn install_systemd_service(
    args: &InstallCommandArgs,
    is_root: bool,
    executable_location: &str,
) -> (r: Result<InstallPlan, InstallError>)
    ensures
        !is_root ==> r == Err::<InstallPlan, InstallError>(InstallError::NotRoot),
        is_root ==> (r matches Ok(plan) && plan.unit_file_name@ == args.service_name@
            && plan.service_path@ == UNIT_DIRECTORY@ + args.service_name@
            && plan.unit_file@ == unit_text(
                executable_location@,
                args.socket@,
                args.server_address@,
                args.server_port,
                args.proxy_address@,
                args.proxy_port,
            )),
{
    if !is_root {
        return Err(InstallError::NotRoot);
    }
    let server_port = decimal_text(args.server_port as i32);
    let proxy_port = decimal_text(args.proxy_port as i32);
    let mut unit_file = String::from_str(
        "\n[Unit]\nDescription=Minecraft Maintenance Proxy\nAfter=network.target\n\n[Service]\nType=simple\nUser=root\nGroup=root\nExecStart=",
    );
    unit_file.append(executable_location);
    unit_file.append(" proxy --socket ");
    unit_file.append(args.socket.as_str());
    unit_file.append(" --server-address ");
    unit_file.append(args.server_address.as_str());
    unit_file.append(" --server-port ");
    unit_file.append(server_port.as_str());
    unit_file.append(" --proxy-address ");
    unit_file.append(args.proxy_address.as_str());
    unit_file.append(" --proxy-port ");
    unit_file.append(proxy_port.as_str());
    unit_file.append("\n\n[Install]\nWantedBy=multi-user.target\n");
    let mut service_path = String::from_str(UNIT_DIRECTORY);
    service_path.append(args.service_name.as_str());
    let unit_file_name = String::from_str(args.service_name.as_str());
    Ok(InstallPlan { unit_file_name, service_path, unit_file })
}

} // verus!
